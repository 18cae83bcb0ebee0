use mail_platformer::world::{chunk_at, chunk_origin_of, get_tile, sheet_cell, Chunk, World};

fn chunk(x: i16, y: i16) -> Chunk {
    Chunk { x, y, tiles: vec![0; 256] }
}

fn empty_world() -> World {
    World {
        collision: Vec::new(),
        one_way_collision: Vec::new(),
        details: Vec::new(),
        background: Vec::new(),
        interactable: Vec::new(),
    }
}

#[test]
fn tile_at_reads_row_major() {
    let mut c = chunk(0, 0);
    c.tiles[3 + 2 * 16] = 7;
    assert_eq!(c.tile_at(3, 2), Some(7));
    assert_eq!(c.tile_at(0, 0), Some(0));
    assert_eq!(c.tile_at(15, 15), Some(0));
}

#[test]
fn tile_at_column_sixteen_reads_next_row() {
    let mut c = chunk(0, 0);
    c.tiles[16] = 9;
    assert_eq!(c.tile_at(16, 0), Some(9));
    assert_eq!(c.tile_at(16, 15), None);
    assert_eq!(c.tile_at(17, 0), None);
    assert_eq!(c.tile_at(0, 16), None);
    assert_eq!(c.tile_at(usize::MAX, usize::MAX), None);
}

#[test]
fn chunk_origin_rounds_down() {
    assert_eq!(chunk_origin_of(0), 0);
    assert_eq!(chunk_origin_of(15), 0);
    assert_eq!(chunk_origin_of(16), 16);
    assert_eq!(chunk_origin_of(-1), -16);
    assert_eq!(chunk_origin_of(-16), -16);
    assert_eq!(chunk_origin_of(-17), -32);
    assert_eq!(chunk_origin_of(i16::MIN), i16::MIN);
    assert_eq!(chunk_origin_of(i16::MAX), 32752);
}

#[test]
fn pixel_to_tile_to_chunk_round_trip() {
    let mut layer = vec![chunk(0, 0), chunk(-16, 0), chunk(16, -16)];
    layer[1].tiles[15 + 3 * 16] = 4;
    layer[2].tiles[5 + 14 * 16] = 6;
    // pixel (-3, 25) lies in tile (-1, 3), owned by the chunk at (-16, 0)
    let tx = (-3f64 / 8.0).floor() as i16;
    let ty = (25f64 / 8.0).floor() as i16;
    assert_eq!((tx, ty), (-1, 3));
    let owner = chunk_at(&layer, chunk_origin_of(tx), chunk_origin_of(ty)).unwrap();
    assert_eq!((owner.x, owner.y), (-16, 0));
    assert_eq!(get_tile(&layer, tx, ty), 4);
    assert_eq!(get_tile(&layer, 21, -2), 6);
}

#[test]
fn missing_chunk_reads_empty() {
    let layer = vec![chunk(0, 0)];
    assert!(chunk_at(&layer, 16, 0).is_none());
    assert!(chunk_at(&layer, 1, 0).is_none());
    assert_eq!(get_tile(&layer, 100, 100), 0);
    assert_eq!(get_tile(&layer, -1, 0), 0);
}

#[test]
fn layer_lookup_is_by_exact_origin() {
    let mut w = empty_world();
    w.collision = vec![chunk(0, 0), chunk(16, 0)];
    w.one_way_collision = vec![chunk(32, 16)];
    assert_eq!(w.get_collision_chunk(16, 0).map(|c| c.x), Some(16));
    assert!(w.get_collision_chunk(32, 16).is_none());
    assert_eq!(w.get_one_way_collision_chunk(32, 16).map(|c| c.y), Some(16));
    assert!(w.get_one_way_collision_chunk(0, 0).is_none());
}

#[test]
fn set_collision_tile_overwrites_one_cell() {
    let mut w = empty_world();
    w.collision = vec![chunk(0, 0), chunk(-16, -16)];
    w.collision[1].tiles[255] = 3;
    w.set_collision_tile(-1, -1, 0);
    w.set_collision_tile(5, 7, 12);
    assert_eq!(get_tile(&w.collision, -1, -1), 0);
    assert_eq!(get_tile(&w.collision, 5, 7), 12);
    assert_eq!(w.collision[0].tiles.iter().filter(|t| **t != 0).count(), 1);
    assert_eq!(w.collision[0].tiles[5 + 7 * 16], 12);
}

#[test]
fn interactable_spawn_finds_first_marker() {
    let mut w = empty_world();
    let mut a = chunk(16, 0);
    a.tiles[2 + 16] = 65;
    let mut b = chunk(0, 0);
    b.tiles[0] = 65;
    b.tiles[3] = 129;
    w.interactable = vec![a, b];
    // the chunk listed first is scanned first
    assert_eq!(w.get_interactable_spawn(64), Some(((2 + 16) * 8 + 4, 12)));
    assert_eq!(w.get_interactable_spawn(128), Some((28, 4)));
    assert_eq!(w.get_interactable_spawn(5), None);
    assert_eq!(w.get_interactable_spawn(i16::MAX), None);
}

#[test]
fn sheet_cells_of_tiles() {
    assert_eq!(sheet_cell(0), None);
    assert_eq!(sheet_cell(1), Some((0, 0)));
    assert_eq!(sheet_cell(32), Some((31, 0)));
    assert_eq!(sheet_cell(33), Some((0, 1)));
    assert_eq!(sheet_cell(100), Some((3, 3)));
}
