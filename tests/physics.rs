use mail_platformer::player::{Controls, Player, Tag};
use mail_platformer::world::{Chunk, World};

fn idle() -> Controls {
    Controls { left: false, right: false, up: false, down: false, jump: false, noclip: false }
}

fn layer_with(tiles: &[(i16, i16)]) -> Vec<Chunk> {
    let mut c = Chunk { x: 0, y: 0, tiles: vec![0; 256] };
    for (x, y) in tiles {
        c.tiles[(*x + *y * 16) as usize] = 1;
    }
    vec![c]
}

fn world(solid: &[(i16, i16)], one_way: &[(i16, i16)]) -> World {
    World {
        collision: layer_with(solid),
        one_way_collision: layer_with(one_way),
        details: Vec::new(),
        background: Vec::new(),
        interactable: Vec::new(),
    }
}

fn player_at(x: i64, y: i64) -> Player {
    let mut p = Player::new();
    p.x = x;
    p.y = y;
    p
}

#[test]
fn new_player_is_at_rest() {
    let p = Player::new();
    assert_eq!((p.x, p.y, p.vx, p.vy), (0, 0, 0, 0));
    assert!(p.facing_right);
    assert!(!p.on_ground);
    assert_eq!(p.jump_frames, 0);
    assert!(p.tags.is_empty());
    assert_eq!(Tag::HasMail, Tag::HasMail);
}

#[test]
fn resting_on_floor_is_steady() {
    let floor: Vec<(i16, i16)> = (0..16).map(|x| (x, 6)).collect();
    let w = world(&floor, &[]);
    let mut p = player_at(3 * 800, 5 * 800);
    for _ in 0..10 {
        p.update(&w, idle());
        assert_eq!((p.x, p.y, p.vx, p.vy), (2400, 4000, 0, 0));
        assert!(p.on_ground);
    }
    assert_eq!(p.anim_frame, 160);
}

#[test]
fn drop_lands_on_tile_top() {
    let w = world(&[(4, 10)], &[]);
    let mut p = player_at(4 * 800, 2 * 800);
    let mut landed_at = None;
    for tick in 0..100 {
        p.update(&w, idle());
        if p.on_ground {
            landed_at = Some(tick);
            break;
        }
        assert!(p.vy > 0);
    }
    assert!(landed_at.is_some());
    assert_eq!(p.vy, 0);
    assert_eq!(p.y + 800, 10 * 800);
    assert_eq!(p.x, 4 * 800);
}

#[test]
fn falling_tick_before_floor_stays_in_air() {
    let w = world(&[(4, 10)], &[]);
    // the feet end the tick at 7990, short of the tile top at 8000
    let mut p = player_at(4 * 800, 7100);
    p.vy = 0;
    p.update(&w, idle());
    assert!(!p.on_ground);
    assert_eq!((p.y, p.vy), (7190, 90));
}

#[test]
fn one_way_platform_lets_rising_player_through() {
    let w = world(&[], &[(4, 5)]);
    let mut p = player_at(4 * 800, 6 * 800 + 100);
    p.vy = -700;
    p.update(&w, idle());
    assert_eq!(p.vy, -610);
    assert_eq!(p.y, 6 * 800 + 100 - 610);
    assert!(!p.on_ground);
    p.update(&w, idle());
    assert_eq!(p.vy, -520);
    assert!(p.y < 5 * 800);
}

#[test]
fn one_way_platform_stops_falling_player_on_top() {
    let w = world(&[], &[(4, 5)]);
    let mut p = player_at(4 * 800, 4 * 800 - 300);
    p.vy = 400;
    p.update(&w, idle());
    assert!(p.on_ground);
    assert_eq!(p.vy, 0);
    assert_eq!(p.y + 800, 5 * 800);
}

#[test]
fn jump_starts_strong_then_sustains() {
    let floor: Vec<(i16, i16)> = (0..16).map(|x| (x, 6)).collect();
    let w = world(&floor, &[]);
    let mut p = player_at(3 * 800, 5 * 800);
    p.update(&w, idle());
    let jump = Controls { jump: true, ..idle() };
    p.update(&w, jump);
    assert_eq!(p.vy, 90 - 350);
    assert_eq!(p.jump_frames, 1);
    assert!(!p.on_ground);
    p.update(&w, jump);
    assert_eq!(p.vy, -260 + 90 - 100);
    assert_eq!(p.jump_frames, 2);
    for _ in 0..10 {
        p.update(&w, jump);
    }
    assert_eq!(p.jump_frames, 5);
}

#[test]
fn ground_friction_and_limits() {
    let floor: Vec<(i16, i16)> = (0..16).map(|x| (x, 6)).collect();
    let w = world(&floor, &[]);
    let mut p = player_at(3 * 800, 5 * 800);
    p.on_ground = true;
    p.vx = 100;
    p.update(&w, idle());
    assert_eq!(p.vx, 79);
    let mut q = player_at(3 * 800, 5 * 800);
    q.on_ground = true;
    q.vx = 30;
    q.update(&w, idle());
    assert_eq!(q.vx, 0);
    let mut r = player_at(3 * 800, 5 * 800);
    r.on_ground = true;
    r.vx = 120;
    r.update(&w, Controls { right: true, ..idle() });
    assert_eq!(r.vx, 120);
    assert!(r.facing_right);
    let mut l = player_at(3 * 800, 5 * 800);
    l.update(&w, Controls { left: true, ..idle() });
    assert!(!l.facing_right);
    assert_eq!(l.vx, -100);
}

#[test]
fn wall_stops_horizontal_motion() {
    let w = world(&[(5, 3)], &[]);
    let mut p = player_at(4 * 800 - 50, 3 * 800);
    p.vx = 120;
    p.update(&w, Controls { noclip: false, ..idle() });
    assert_eq!(p.vx, 0);
    assert_eq!(p.x, 4 * 800);
}

#[test]
fn noclip_flies_with_damping() {
    let w = world(&[(0, 0)], &[]);
    let mut p = player_at(0, 0);
    p.update(&w, Controls { right: true, up: true, noclip: true, ..idle() });
    assert_eq!(p.vx, 200 - 42);
    assert_eq!(p.vy, -200 + 42);
    assert_eq!((p.x, p.y), (158, -158));
    assert!(!p.on_ground);
}

#[test]
fn range_check() {
    let mut p = Player::new();
    assert!(p.is_in_range());
    p.vy = i64::MAX;
    assert!(!p.is_in_range());
}

#[test]
fn sliding_player_comes_to_rest() {
    let floor: Vec<(i16, i16)> = (0..16).map(|x| (x, 6)).collect();
    let w = world(&floor, &[]);
    let mut p = player_at(2 * 800, 5 * 800);
    p.on_ground = true;
    p.vx = 120;
    let mut ticks = 0;
    while p.vx != 0 {
        p.update(&w, idle());
        ticks += 1;
        assert!(ticks < 20);
    }
    let rest = (p.x, p.y);
    for _ in 0..5 {
        p.update(&w, idle());
        assert_eq!((p.x, p.y, p.vx, p.vy), (rest.0, rest.1, 0, 0));
    }
}
