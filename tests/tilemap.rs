use mail_platformer::tilemap::{get_all_chunks, parse_chunk, parse_i16, read_layer};
use mail_platformer::world::{get_tile, World};

fn csv(tiles: &[i16]) -> String {
    tiles.iter().map(|t| t.to_string()).collect::<Vec<_>>().join(",\n")
}

fn chunk_text(x: i16, y: i16, tiles: &[i16]) -> String {
    format!("<chunk x=\"{x}\" y=\"{y}\" width=\"16\" height=\"16\">\n{}\n</chunk>\n", csv(tiles))
}

fn layer_text(name: &str, chunks: &[String]) -> String {
    format!(
        "<layer id=\"1\" name=\"{name}\" width=\"32\" height=\"32\">\n<data encoding=\"csv\">\n{}</data>\n</layer>\n",
        chunks.concat()
    )
}

fn tiles_with(index: usize, value: i16) -> Vec<i16> {
    let mut t = vec![0; 256];
    t[index] = value;
    t
}

fn map(layers: &[(&str, Vec<String>)]) -> String {
    let mut s = String::from("<?xml version=\"1.0\"?>\n<map>\n");
    for (name, chunks) in layers {
        s.push_str(&layer_text(name, chunks));
    }
    s.push_str("</map>\n");
    s
}

#[test]
fn parses_signed_decimals() {
    let s = b"12 -7 +3 32767 -32768 32768 - 1a 0007";
    assert_eq!(parse_i16(s, 0, 2), Some(12));
    assert_eq!(parse_i16(s, 3, 5), Some(-7));
    assert_eq!(parse_i16(s, 6, 8), Some(3));
    assert_eq!(parse_i16(s, 9, 14), Some(32767));
    assert_eq!(parse_i16(s, 15, 21), Some(-32768));
    assert_eq!(parse_i16(s, 22, 27), None);
    assert_eq!(parse_i16(s, 28, 29), None);
    assert_eq!(parse_i16(s, 30, 32), None);
    assert_eq!(parse_i16(s, 33, 37), Some(7));
    assert_eq!(parse_i16(s, 0, 0), None);
}

#[test]
fn parses_one_chunk() {
    let text = chunk_text(-16, 32, &tiles_with(17, 5));
    let bytes = text.as_bytes();
    let end = text.find("</chunk>").unwrap();
    let c = parse_chunk(bytes, 0, end).unwrap();
    assert_eq!((c.x, c.y), (-16, 32));
    assert_eq!(c.tiles.len(), 256);
    assert_eq!(c.tiles[17], 5);
    assert_eq!(c.tiles.iter().filter(|t| **t != 0).count(), 1);
}

#[test]
fn short_chunk_is_refused() {
    let text = chunk_text(0, 0, &vec![1; 255]);
    let bytes = text.as_bytes();
    assert!(parse_chunk(bytes, 0, text.find("</chunk>").unwrap()).is_none());
    // the closing tag is not part of the last value
    let whole = chunk_text(0, 0, &vec![1; 256]);
    assert!(parse_chunk(whole.as_bytes(), 0, whole.len()).is_none());
    let bad = "<chunk y=\"0\">1,2</chunk>";
    assert!(parse_chunk(bad.as_bytes(), 0, bad.len()).is_none());
}

#[test]
fn reads_every_chunk_of_a_layer() {
    let text = [chunk_text(0, 0, &tiles_with(0, 1)), chunk_text(16, 0, &tiles_with(1, 2))].concat();
    let bytes = text.as_bytes();
    let cs = get_all_chunks(bytes, 0, bytes.len()).unwrap();
    assert_eq!(cs.len(), 2);
    assert_eq!((cs[1].x, cs[1].tiles[1]), (16, 2));
    assert_eq!(get_all_chunks(b"no chunks here", 0, 14).map(|v| v.len()), Some(0));
}

#[test]
fn world_from_map_text() {
    let text = map(&[
        ("Background", vec![chunk_text(0, 0, &tiles_with(0, 9))]),
        ("Collision", vec![chunk_text(0, 0, &tiles_with(16 * 6 + 3, 1)), chunk_text(-16, 0, &tiles_with(0, 2))]),
        ("OneWayCollision", vec![chunk_text(0, 0, &tiles_with(5, 3))]),
        ("Detail", vec![]),
        ("Interactable", vec![chunk_text(0, 0, &tiles_with(2, 65))]),
    ]);
    let w = World::from_map(text.as_bytes()).unwrap();
    assert_eq!(w.collision.len(), 2);
    assert_eq!(get_tile(&w.collision, 3, 6), 1);
    assert_eq!(get_tile(&w.collision, -16, 0), 2);
    assert_eq!(get_tile(&w.one_way_collision, 5, 0), 3);
    assert!(w.details.is_empty());
    assert_eq!(w.background[0].tiles[0], 9);
    assert_eq!(w.get_interactable_spawn(64), Some((20, 4)));
}

#[test]
fn missing_layer_or_shared_origin_is_refused() {
    let text = map(&[
        ("Background", vec![]),
        ("Collision", vec![]),
        ("Detail", vec![]),
        ("Interactable", vec![]),
    ]);
    assert!(World::from_map(text.as_bytes()).is_none());
    let dup = layer_text("Collision", &[chunk_text(0, 0, &tiles_with(0, 1)), chunk_text(0, 0, &tiles_with(0, 1))]);
    assert!(read_layer(dup.as_bytes(), b"Collision").is_none());
    assert_eq!(read_layer(dup.as_bytes(), b"Collision ").map(|v| v.len()), None);
}
