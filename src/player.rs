use vstd::prelude::*;

use crate::world::{tile_in, World, Chunk, get_tile, layer_wf};

verus! {

/// Fixed-point units per pixel: positions and velocities are in hundredths
/// of a pixel.
pub const SUBPIXELS: i64 = 100;

/// One tile is 8 pixels.
pub const TILE_UNITS: i64 = 800;

/// Downward force added every tick (0.9 px).
pub const GRAVITY: i64 = 90;

/// Force of one direction key (1 px).
pub const MOVE_FORCE: i64 = 100;

/// Force of the first jump tick (3.5 px).
pub const JUMP_FORCE: i64 = 350;

/// Force of each later tick of a held jump (1 px).
pub const JUMP_SUSTAIN: i64 = 100;

/// A held jump keeps pushing while fewer than this many ticks have passed.
pub const JUMP_WINDOW: u8 = 5;

/// Share of horizontal speed lost per tick on the ground, in percent.
pub const GROUND_FRICTION: i64 = 21;

/// Share of horizontal speed lost per tick in the air, in percent.
pub const AIR_DRAG: i64 = 7;

/// Largest horizontal speed (1.2 px per tick).
pub const MAX_VELOCITY: i64 = 120;

/// Horizontal speeds at or below this (0.3 px per tick) stop.
pub const DEADZONE: i64 = 30;

/// Milliseconds of animation time per tick.
pub const ANIM_STEP: u32 = 16;

/// Bound on coordinates and speeds under which one tick is computed exactly.
pub const LIMIT: i64 = 1099511627776;

/// Quest flags. Once held, a flag is never given up.
#[derive(PartialEq, Eq, Structural, Clone, Copy, Debug)]
pub enum Tag {
    HasMail,
    HasBirdFood,
    HasFedBird,
    TonyHasOpenedDoor,
    HasGift,
    HasGivenGift,
    MailHasBeenSent,
    HasBeeninGiftStore,
    HasMilk,
    HenryHasOfferedCarrot,
    HasReturnedToHenry,
    HasCarrot,
    SelectingGift,
}

/// What the player holds down during one tick.
#[derive(Clone, Copy, Debug)]
pub struct Controls {
    pub left: bool,
    pub right: bool,
    pub up: bool,
    pub down: bool,
    pub jump: bool,
    pub noclip: bool,
}

/// The moving part of the player, as mathematical integers.
pub struct Body {
    pub x: int,
    pub y: int,
    pub vx: int,
    pub vy: int,
    pub facing_right: bool,
    pub on_ground: bool,
    pub jump_frames: int,
}

pub struct Player {
    pub x: i64,
    pub y: i64,
    pub vx: i64,
    pub vy: i64,
    pub anim_frame: u32,
    pub facing_right: bool,
    pub on_ground: bool,
    pub jump_frames: u8,
    pub tags: Vec<Tag>,
}

/// `v / d` rounded toward zero.
pub open spec fn trunc_div(v: int, d: int) -> int {
    if v >= 0 {
        v / d
    } else {
        -((-v) / d)
    }
}

/// `v / d` rounded away from zero.
pub open spec fn away_div(v: int, d: int) -> int {
    if v >= 0 {
        -((-v) / d)
    } else {
        v / d
    }
}

/// `v / d` rounded down.
pub open spec fn floor_div(v: int, d: int) -> int {
    v / d
}

/// `v / d` rounded up.
pub open spec fn ceil_div(v: int, d: int) -> int {
    -((-v) / d)
}

/// `v * pct / 100`, rounded toward zero.
pub open spec fn percent(v: int, pct: int) -> int {
    trunc_div(v * pct, 100)
}

/// A coordinate brought into the range of `i16`, as a saturating cast does.
pub open spec fn sat16(v: int) -> int {
    if v > 32767 {
        32767
    } else if v < -32768 {
        -32768
    } else {
        v
    }
}

pub open spec fn clamp(v: int, lo: int, hi: int) -> int {
    if v < lo {
        lo
    } else if v > hi {
        hi
    } else {
        v
    }
}

pub open spec fn abs(v: int) -> int {
    if v < 0 {
        -v
    } else {
        v
    }
}

/// Tile of a layer at a sample point, the point's coordinates saturated.
pub open spec fn sample_tile(layer: Seq<Chunk>, p: (int, int)) -> i16 {
    tile_in(layer, sat16(p.0), sat16(p.1))
}

/// Corner samples for vertical resolution: the current columns against the
/// rows of the tentative new height.
pub open spec fn vertical_samples(x: int, ny: int) -> Seq<(int, int)> {
    let tx = trunc_div(x, TILE_UNITS as int);
    let ax = away_div(x, TILE_UNITS as int);
    let ay = away_div(ny, TILE_UNITS as int);
    let ty = trunc_div(ny, TILE_UNITS as int);
    seq![(tx, ay), (ax, ay), (tx, ty), (ax, ty)]
}

/// Corner samples for horizontal resolution, at the tentative new position.
pub open spec fn horizontal_samples(nx: int, ny: int) -> Seq<(int, int)> {
    let tx = trunc_div(nx, TILE_UNITS as int);
    let ax = away_div(nx, TILE_UNITS as int);
    let ay = away_div(ny, TILE_UNITS as int);
    let ty = trunc_div(ny, TILE_UNITS as int);
    seq![(tx, ay), (ax, ay), (ax, ty), (tx, ty)]
}

/// Whether some sample lands on a non-empty solid tile.
pub open spec fn solid_hit(solid: Seq<Chunk>, s: Seq<(int, int)>) -> bool {
    exists|i: int| 0 <= i < s.len() && #[trigger] sample_tile(solid, s[i]) != 0
}

/// Whether some sample below row `row` lands on a non-empty one-way tile.
pub open spec fn platform_hit(one_way: Seq<Chunk>, s: Seq<(int, int)>, row: int) -> bool {
    exists|i: int| 0 <= i < s.len() && s[i].1 > row && #[trigger] sample_tile(one_way, s[i]) != 0
}

/// Outcome of vertical resolution: the new height, the new vertical speed and
/// whether the player stands on something. `y` is the height before the tick,
/// `vy` the speed after forces, `ny` the tentative height.
pub open spec fn resolve_vertical(
    solid: Seq<Chunk>,
    one_way: Seq<Chunk>,
    x: int,
    y: int,
    vy: int,
    ny: int,
) -> (int, int, bool) {
    let s = vertical_samples(x, ny);
    if solid_hit(solid, s) {
        if vy < 0 {
            (floor_div(y, TILE_UNITS as int) * TILE_UNITS, 0, false)
        } else {
            (ceil_div(y, TILE_UNITS as int) * TILE_UNITS, 0, true)
        }
    } else if vy > 0 && platform_hit(one_way, s, trunc_div(y, TILE_UNITS as int)) {
        (ceil_div(y, TILE_UNITS as int) * TILE_UNITS, 0, true)
    } else {
        (ny, vy, false)
    }
}

/// Outcome of horizontal resolution: the new column position and speed.
/// `x` is the position before the tick, `vx` the speed after forces, `nx` and
/// `ny` the tentative position after vertical resolution.
pub open spec fn resolve_horizontal(solid: Seq<Chunk>, x: int, vx: int, nx: int, ny: int) -> (
    int,
    int,
) {
    if solid_hit(solid, horizontal_samples(nx, ny)) {
        if vx < 0 {
            (floor_div(x, TILE_UNITS as int) * TILE_UNITS, 0)
        } else {
            (ceil_div(x, TILE_UNITS as int) * TILE_UNITS, 0)
        }
    } else {
        (nx, vx)
    }
}

/// Horizontal force from the direction keys.
pub open spec fn input_force_x(c: Controls) -> int {
    (if c.left {
        -MOVE_FORCE
    } else {
        0
    }) + (if c.right {
        MOVE_FORCE
    } else {
        0
    })
}

pub open spec fn facing_after(c: Controls, facing_right: bool) -> bool {
    if c.right {
        true
    } else if c.left {
        false
    } else {
        facing_right
    }
}

/// Jump counter once landing has reset it.
pub open spec fn jump_base(b: Body) -> int {
    if b.on_ground {
        0
    } else {
        b.jump_frames
    }
}

/// Whether a jump pushes this tick: held, and on the ground or inside the
/// window of a jump already started.
pub open spec fn jump_pushes(b: Body, c: Controls) -> bool {
    c.jump && (b.on_ground || (0 < jump_base(b) < JUMP_WINDOW))
}

pub open spec fn jump_force(b: Body, c: Controls) -> int {
    if jump_pushes(b, c) {
        if jump_base(b) == 0 {
            JUMP_FORCE as int
        } else {
            JUMP_SUSTAIN as int
        }
    } else {
        0
    }
}

pub open spec fn jump_frames_after(b: Body, c: Controls) -> int {
    if jump_pushes(b, c) {
        jump_base(b) + 1
    } else {
        jump_base(b)
    }
}

/// Vertical force: gravity unless flying, the jump, and in flight the
/// up/down keys.
pub open spec fn force_y(b: Body, c: Controls) -> int {
    (if c.noclip {
        0
    } else {
        GRAVITY as int
    }) - jump_force(b, c) + (if c.noclip {
        (if c.up {
            -MOVE_FORCE
        } else {
            0
        }) + (if c.down {
            MOVE_FORCE
        } else {
            0
        })
    } else {
        0
    })
}

/// Flight without collision: doubled force, then 21% damping.
pub open spec fn fly_speed(v: int, f: int) -> int {
    (v + 2 * f) - percent(v + 2 * f, GROUND_FRICTION as int)
}

/// One simulation tick of the player's body.
pub open spec fn step(b: Body, c: Controls, solid: Seq<Chunk>, one_way: Seq<Chunk>) -> Body {
    let facing = facing_after(c, b.facing_right);
    let jf = jump_frames_after(b, c);
    let fx = input_force_x(c);
    let fy = force_y(b, c);
    if c.noclip {
        let vx = fly_speed(b.vx, fx);
        let vy = fly_speed(b.vy, fy);
        Body {
            x: b.x + vx,
            y: b.y + vy,
            vx,
            vy,
            facing_right: facing,
            on_ground: b.on_ground,
            jump_frames: jf,
        }
    } else {
        let drag = if b.on_ground {
            GROUND_FRICTION as int
        } else {
            AIR_DRAG as int
        };
        let vx1 = b.vx + fx - percent(b.vx, drag);
        let vy1 = b.vy + fy;
        let nx = b.x + vx1;
        let ny = b.y + vy1;
        let (ny2, vy2, ground) = resolve_vertical(solid, one_way, b.x, b.y, vy1, ny);
        let (nx2, vx2) = resolve_horizontal(solid, b.x, vx1, nx, ny2);
        let vx3 = if abs(vx2) <= DEADZONE {
            0
        } else {
            vx2
        };
        Body {
            x: nx2,
            y: ny2,
            vx: clamp(vx3, -MAX_VELOCITY, MAX_VELOCITY as int),
            vy: vy2,
            facing_right: facing,
            on_ground: ground,
            jump_frames: jf,
        }
    }
}

/// Sample points with their coordinates as mathematical integers.
pub open spec fn points(s: Seq<(i64, i64)>) -> Seq<(int, int)> {
    Seq::new(s.len(), |i: int| (s[i].0 as int, s[i].1 as int))
}

/// Animation time after one tick, wrapping at the width of `u32`.
pub open spec fn anim_after(t: u32) -> u32 {
    ((t as int + ANIM_STEP as int) % 0x1_0000_0000) as u32
}

fn trunc_tile(v: i64) -> (r: i64)
    requires
        abs(v as int) <= 8 * LIMIT,
    ensures
        r == trunc_div(v as int, TILE_UNITS as int),
{
    if v >= 0 {
        v / TILE_UNITS
    } else {
        -((-v) / TILE_UNITS)
    }
}

fn away_tile(v: i64) -> (r: i64)
    requires
        abs(v as int) <= 8 * LIMIT,
    ensures
        r == away_div(v as int, TILE_UNITS as int),
{
    if v >= 0 {
        let r = (v + (TILE_UNITS - 1)) / TILE_UNITS;
        assert(r == -((-v) / 800)) by (nonlinear_arith)
            requires
                v >= 0,
                r == (v + 799) / 800,
        ;
        r
    } else {
        let r = -(((-v) + (TILE_UNITS - 1)) / TILE_UNITS);
        assert(r == v / 800) by (nonlinear_arith)
            requires
                v < 0,
                r == -(((-v) + 799) / 800),
        ;
        r
    }
}

fn floor_tile(v: i64) -> (r: i64)
    requires
        abs(v as int) <= 8 * LIMIT,
    ensures
        r == floor_div(v as int, TILE_UNITS as int),
{
    if v >= 0 {
        v / TILE_UNITS
    } else {
        let r = -(((-v) + (TILE_UNITS - 1)) / TILE_UNITS);
        assert(r == v / 800) by (nonlinear_arith)
            requires
                v < 0,
                r == -(((-v) + 799) / 800),
        ;
        r
    }
}

fn ceil_tile(v: i64) -> (r: i64)
    requires
        abs(v as int) <= 8 * LIMIT,
    ensures
        r == ceil_div(v as int, TILE_UNITS as int),
{
    if v >= 0 {
        let r = (v + (TILE_UNITS - 1)) / TILE_UNITS;
        assert(r == -((-v) / 800)) by (nonlinear_arith)
            requires
                v >= 0,
                r == (v + 799) / 800,
        ;
        r
    } else {
        -((-v) / TILE_UNITS)
    }
}

fn percent_of(v: i64, pct: i64) -> (r: i64)
    requires
        abs(v as int) <= 8 * LIMIT,
        0 <= pct <= 100,
    ensures
        r == percent(v as int, pct as int),
        abs(r as int) <= abs(v as int),
{
    assert(abs(v as int * pct as int) <= abs(v as int) * 100) by (nonlinear_arith)
        requires
            0 <= pct <= 100,
    ;
    let p = v * pct;
    assert(abs(p as int) <= abs(v as int) * 100) by (nonlinear_arith)
        requires
            p == v * pct,
            0 <= pct <= 100,
    ;
    let r = if p >= 0 {
        p / 100
    } else {
        -((-p) / 100)
    };
    assert(abs(r as int) <= abs(v as int)) by (nonlinear_arith)
        requires
            abs(p as int) <= abs(v as int) * 100,
            r == trunc_div(p as int, 100),
    ;
    r
}

fn sat_i16(v: i64) -> (r: i16)
    ensures
        r == sat16(v as int),
{
    if v > 32767 {
        32767
    } else if v < -32768 {
        -32768
    } else {
        v as i16
    }
}

/// Whether some sample point lands on a non-empty tile of the layer.
pub fn any_solid(layer: &Vec<Chunk>, s: &Vec<(i64, i64)>) -> (r: bool)
    requires
        layer_wf(layer@),
    ensures
        r == solid_hit(layer@, points(s@)),
{
    let mut i: usize = 0;
    while i < s.len()
        invariant
            0 <= i <= s@.len(),
            layer_wf(layer@),
            forall|j: int| 0 <= j < i ==> #[trigger] sample_tile(layer@, points(s@)[j]) == 0,
        decreases s@.len() - i,
    {
        let (px, py) = s[i];
        if get_tile(layer, sat_i16(px), sat_i16(py)) != 0 {
            assert(sample_tile(layer@, points(s@)[i as int]) != 0);
            return true;
        }
        i = i + 1;
    }
    proof {
        assert forall|j: int| 0 <= j < points(s@).len() implies #[trigger] sample_tile(layer@, points(s@)[j]) == 0 by {
        }
    }
    false
}

/// Whether some sample point below `row` lands on a non-empty tile of the
/// layer.
pub fn any_platform(layer: &Vec<Chunk>, s: &Vec<(i64, i64)>, row: i64) -> (r: bool)
    requires
        layer_wf(layer@),
    ensures
        r == platform_hit(layer@, points(s@), row as int),
{
    let mut i: usize = 0;
    while i < s.len()
        invariant
            0 <= i <= s@.len(),
            layer_wf(layer@),
            forall|j: int|
                0 <= j < i ==> !(points(s@)[j].1 > row && #[trigger] sample_tile(layer@, points(s@)[j]) != 0),
        decreases s@.len() - i,
    {
        let (px, py) = s[i];
        if py > row && get_tile(layer, sat_i16(px), sat_i16(py)) != 0 {
            assert(sample_tile(layer@, points(s@)[i as int]) != 0);
            return true;
        }
        i = i + 1;
    }
    false
}

/// Vertical resolution of one tick, see `resolve_vertical`.
fn vertical(solid: &Vec<Chunk>, one_way: &Vec<Chunk>, x: i64, y: i64, vy1: i64, ny: i64) -> (r: (
    i64,
    i64,
    bool,
))
    requires
        layer_wf(solid@),
        layer_wf(one_way@),
        abs(x as int) <= LIMIT,
        abs(y as int) <= LIMIT,
        abs(vy1 as int) <= 2 * LIMIT,
        abs(ny as int) <= 4 * LIMIT,
    ensures
        (r.0 as int, r.1 as int, r.2) == resolve_vertical(
            solid@,
            one_way@,
            x as int,
            y as int,
            vy1 as int,
            ny as int,
        ),
        abs(r.0 as int) <= 4 * LIMIT,
        abs(r.1 as int) <= 2 * LIMIT,
{
    let tx = trunc_tile(x);
    let ax = away_tile(x);
    let ay = away_tile(ny);
    let ty = trunc_tile(ny);
    let vs: Vec<(i64, i64)> = vec![(tx, ay), (ax, ay), (tx, ty), (ax, ty)];
    assert(points(vs@) =~= vertical_samples(x as int, ny as int));
    if any_solid(solid, &vs) {
        if vy1 < 0 {
            (floor_tile(y) * TILE_UNITS, 0, false)
        } else {
            (ceil_tile(y) * TILE_UNITS, 0, true)
        }
    } else if vy1 > 0 && any_platform(one_way, &vs, trunc_tile(y)) {
        (ceil_tile(y) * TILE_UNITS, 0, true)
    } else {
        (ny, vy1, false)
    }
}

/// Horizontal resolution of one tick, see `resolve_horizontal`.
fn horizontal(solid: &Vec<Chunk>, x: i64, vx1: i64, nx: i64, ny2: i64) -> (r: (i64, i64))
    requires
        layer_wf(solid@),
        abs(x as int) <= LIMIT,
        abs(vx1 as int) <= 3 * LIMIT,
        abs(nx as int) <= 4 * LIMIT,
        abs(ny2 as int) <= 4 * LIMIT,
    ensures
        (r.0 as int, r.1 as int) == resolve_horizontal(
            solid@,
            x as int,
            vx1 as int,
            nx as int,
            ny2 as int,
        ),
{
    let hs: Vec<(i64, i64)> = vec![
        (trunc_tile(nx), away_tile(ny2)),
        (away_tile(nx), away_tile(ny2)),
        (away_tile(nx), trunc_tile(ny2)),
        (trunc_tile(nx), trunc_tile(ny2)),
    ];
    assert(points(hs@) =~= horizontal_samples(nx as int, ny2 as int));
    if any_solid(solid, &hs) {
        if vx1 < 0 {
            (floor_tile(x) * TILE_UNITS, 0)
        } else {
            (ceil_tile(x) * TILE_UNITS, 0)
        }
    } else {
        (nx, vx1)
    }
}

/// Facing, jump counter and forces of one tick, from the controls.
fn drive(facing_right: bool, on_ground: bool, jump_frames: u8, c: Controls) -> (r: (bool, u8, i64, i64))
    ensures
        ({
            let b = Body { x: 0, y: 0, vx: 0, vy: 0, facing_right, on_ground, jump_frames: jump_frames as int };
            &&& r.0 == facing_after(c, facing_right)
            &&& r.1 as int == jump_frames_after(b, c)
            &&& r.2 as int == input_force_x(c)
            &&& r.3 as int == force_y(b, c)
        }),
        -MOVE_FORCE <= r.2 <= MOVE_FORCE,
        -(JUMP_FORCE + MOVE_FORCE) <= r.3 <= GRAVITY + MOVE_FORCE,
{
    let mut facing = facing_right;
    let mut fx: i64 = 0;
    let mut fy: i64 = if c.noclip {
        0
    } else {
        GRAVITY
    };
    if c.left {
        fx = fx - MOVE_FORCE;
        facing = false;
    }
    if c.right {
        fx = fx + MOVE_FORCE;
        facing = true;
    }
    let mut jf = jump_frames;
    if on_ground {
        jf = 0;
    }
    if c.jump && (on_ground || (jf > 0 && jf < JUMP_WINDOW)) {
        fy = fy - if jf == 0 {
            JUMP_FORCE
        } else {
            JUMP_SUSTAIN
        };
        jf = jf + 1;
    }
    if c.noclip {
        if c.up {
            fy = fy - MOVE_FORCE;
        }
        if c.down {
            fy = fy + MOVE_FORCE;
        }
    }
    (facing, jf, fx, fy)
}

fn fly_speed_of(v: i64, f: i64) -> (r: i64)
    requires
        abs(v as int) <= LIMIT,
        abs(f as int) <= 1000,
    ensures
        r == fly_speed(v as int, f as int),
        abs(r as int) <= LIMIT + 2000,
{
    let v1 = v + 2 * f;
    v1 - percent_of(v1, GROUND_FRICTION)
}

/// Forces, integration and collision of one tick on the ground or in the air.
fn collide(
    world: &World,
    x: i64,
    y: i64,
    vx: i64,
    vy: i64,
    on_ground: bool,
    fx: i64,
    fy: i64,
) -> (r: (i64, i64, i64, i64, bool))
    requires
        layer_wf(world.collision@),
        layer_wf(world.one_way_collision@),
        abs(x as int) <= LIMIT,
        abs(y as int) <= LIMIT,
        abs(vx as int) <= LIMIT,
        abs(vy as int) <= LIMIT,
        abs(fx as int) <= 1000,
        abs(fy as int) <= 1000,
    ensures
        ({
            let drag = if on_ground {
                GROUND_FRICTION as int
            } else {
                AIR_DRAG as int
            };
            let vx1 = vx + fx - percent(vx as int, drag);
            let vy1 = vy + fy;
            let (ny2, vy2, ground) = resolve_vertical(
                world.collision@,
                world.one_way_collision@,
                x as int,
                y as int,
                vy1,
                y + vy1,
            );
            let (nx2, vx2) = resolve_horizontal(world.collision@, x as int, vx1, x + vx1, ny2);
            let vx3 = if abs(vx2) <= DEADZONE {
                0
            } else {
                vx2
            };
            &&& r.0 == nx2
            &&& r.1 == ny2
            &&& r.2 == clamp(vx3, -MAX_VELOCITY, MAX_VELOCITY as int)
            &&& r.3 == vy2
            &&& r.4 == ground
        }),
{
    let drag = if on_ground {
        GROUND_FRICTION
    } else {
        AIR_DRAG
    };
    let vx1 = vx + fx - percent_of(vx, drag);
    let vy1 = vy + fy;
    let nx = x + vx1;
    let ny = y + vy1;
    let (ny2, vy2, ground) = vertical(&world.collision, &world.one_way_collision, x, y, vy1, ny);
    let (nx2, mut vx2) = horizontal(&world.collision, x, vx1, nx, ny2);
    if -DEADZONE <= vx2 && vx2 <= DEADZONE {
        vx2 = 0;
    }
    if vx2 < -MAX_VELOCITY {
        vx2 = -MAX_VELOCITY;
    } else if vx2 > MAX_VELOCITY {
        vx2 = MAX_VELOCITY;
    }
    (nx2, ny2, vx2, vy2, ground)
}

impl Player {
    /// A player at the origin, at rest, facing right, holding no flags.
    pub fn new() -> (r: Player)
        ensures
            r.x == 0 && r.y == 0 && r.vx == 0 && r.vy == 0,
            r.anim_frame == 0,
            r.jump_frames == 0,
            r.facing_right,
            !r.on_ground,
            r.tags@ == Seq::<Tag>::empty(),
    {
        Player {
            x: 0,
            y: 0,
            vx: 0,
            vy: 0,
            anim_frame: 0,
            facing_right: true,
            on_ground: false,
            jump_frames: 0,
            tags: Vec::new(),
        }
    }

    pub open spec fn body(&self) -> Body {
        Body {
            x: self.x as int,
            y: self.y as int,
            vx: self.vx as int,
            vy: self.vy as int,
            facing_right: self.facing_right,
            on_ground: self.on_ground,
            jump_frames: self.jump_frames as int,
        }
    }

    /// Position and speed are small enough for one tick to be exact.
    pub open spec fn in_range(&self) -> bool {
        abs(self.x as int) <= LIMIT && abs(self.y as int) <= LIMIT && abs(self.vx as int) <= LIMIT
            && abs(self.vy as int) <= LIMIT
    }

    pub fn is_in_range(&self) -> (r: bool)
        ensures
            r == self.in_range(),
    {
        -LIMIT <= self.x && self.x <= LIMIT && -LIMIT <= self.y && self.y <= LIMIT && -LIMIT
            <= self.vx && self.vx <= LIMIT && -LIMIT <= self.vy && self.vy <= LIMIT
    }

    /// Advances the player by one tick against the solid and one-way layers.
    #[verifier::rlimit(40)]
    pub fn update(&mut self, world: &World, c: Controls)
        requires
            old(self).in_range(),
            layer_wf(world.collision@),
            layer_wf(world.one_way_collision@),
        ensures
            final(self).body() == step(
                old(self).body(),
                c,
                world.collision@,
                world.one_way_collision@,
            ),
            final(self).anim_frame == anim_after(old(self).anim_frame),
            final(self).tags == old(self).tags,
    {
        let ghost b = self.body();
        if self.anim_frame > u32::MAX - ANIM_STEP {
            self.anim_frame = self.anim_frame - (u32::MAX - ANIM_STEP + 1);
        } else {
            self.anim_frame = self.anim_frame + ANIM_STEP;
        }
        let (facing, jf, fx, fy) = drive(self.facing_right, self.on_ground, self.jump_frames, c);
        self.facing_right = facing;
        self.jump_frames = jf;
        if c.noclip {
            let vx = fly_speed_of(self.vx, fx);
            let vy = fly_speed_of(self.vy, fy);
            self.vx = vx;
            self.vy = vy;
            self.x = self.x + vx;
            self.y = self.y + vy;
            return;
        }
        let (nx2, ny2, vx2, vy2, ground) = collide(world, self.x, self.y, self.vx, self.vy, self.on_ground, fx, fy);
        self.x = nx2;
        self.y = ny2;
        self.vx = vx2;
        self.vy = vy2;
        self.on_ground = ground;
    }
}
/// Controls with nothing held.
pub open spec fn idle() -> Controls {
    Controls { left: false, right: false, up: false, down: false, jump: false, noclip: false }
}

proof fn lemma_div_tile(v: int, q: int)
    requires
        q * 800 <= v < q * 800 + 800,
    ensures
        v / 800 == q,
        -((-v) / 800) == if v == q * 800 {
            q
        } else {
            q + 1
        },
{
    assert(v / 800 == q) by (nonlinear_arith)
        requires
            q * 800 <= v < q * 800 + 800,
    ;
    if v == q * 800 {
        assert((-v) / 800 == -q) by (nonlinear_arith)
            requires
                v == q * 800,
        ;
    } else {
        assert((-v) / 800 == -q - 1) by (nonlinear_arith)
            requires
                q * 800 < v < q * 800 + 800,
        ;
    }
}

proof fn lemma_ceil_tile(v: int, q: int)
    requires
        (q - 1) * 800 < v <= q * 800,
    ensures
        -((-v) / 800) == q,
{
    lemma_div_tile(-v, -q);
}

/// Both roundings of an aligned coordinate give its tile.
proof fn lemma_aligned_tile(col: int)
    ensures
        trunc_div(col * 800, 800) == col,
        away_div(col * 800, 800) == col,
        floor_div(col * 800, 800) == col,
        ceil_div(col * 800, 800) == col,
{
    lemma_div_tile(col * 800, col);
    lemma_div_tile(-col * 800, -col);
}

/// While the vertical speed after forces is not downward, one-way tiles have
/// no effect at all: the tick comes out the same whatever the one-way layer
/// holds.
pub proof fn lemma_one_way_never_blocks_rising(
    b: Body,
    c: Controls,
    solid: Seq<Chunk>,
    one_way_a: Seq<Chunk>,
    one_way_b: Seq<Chunk>,
)
    requires
        b.vy + force_y(b, c) <= 0,
    ensures
        step(b, c, solid, one_way_a) == step(b, c, solid, one_way_b),
{
}

/// Falling onto a one-way tile from the row just above it stops the player
/// with its feet exactly on the tile's top boundary, standing, at rest
/// vertically. `col` and `row` name the tile that the first sample reaches.
pub proof fn lemma_one_way_stops_falling(
    solid: Seq<Chunk>,
    one_way: Seq<Chunk>,
    x: int,
    y: int,
    vy: int,
    row: int,
)
    requires
        vy > 0,
        0 <= y,
        (row - 2) * 800 < y <= (row - 1) * 800,
        (row - 1) * 800 < y + vy <= row * 800,
        !solid_hit(solid, vertical_samples(x, y + vy)),
        sample_tile(one_way, (trunc_div(x, 800), row)) != 0,
    ensures
        resolve_vertical(solid, one_way, x, y, vy, y + vy) == ((row - 1) * 800, 0int, true),
        (row - 1) * 800 + 800 == row * 800,
{
    lemma_ceil_tile(y + vy, row);
    lemma_ceil_tile(y, row - 1);
    let s = vertical_samples(x, y + vy);
    assert(s[0] == (trunc_div(x, 800), row));
    assert(s[0].1 > trunc_div(y, 800));
    assert(platform_hit(one_way, s, trunc_div(y, 800)));
}

/// A player at rest on a flat solid floor, with nothing held, stays where it
/// is: same position, zero speed, standing; and the next tick leaves that
/// state unchanged again.
pub proof fn lemma_resting_is_steady(b: Body, solid: Seq<Chunk>, one_way: Seq<Chunk>, col: int, row: int)
    requires
        -32000 <= col <= 32000,
        -32000 <= row <= 32000,
        b.x == col * 800,
        b.y == row * 800,
        b.vx == 0,
        b.vy == 0,
        tile_in(solid, col, row + 1) != 0,
        tile_in(solid, col, row) == 0,
    ensures
        step(b, idle(), solid, one_way).x == b.x,
        step(b, idle(), solid, one_way).y == b.y,
        step(b, idle(), solid, one_way).vx == 0,
        step(b, idle(), solid, one_way).vy == 0,
        step(b, idle(), solid, one_way).on_ground,
        step(step(b, idle(), solid, one_way), idle(), solid, one_way).x == b.x,
        step(step(b, idle(), solid, one_way), idle(), solid, one_way).y == b.y,
        step(step(b, idle(), solid, one_way), idle(), solid, one_way).vx == 0,
        step(step(b, idle(), solid, one_way), idle(), solid, one_way).vy == 0,
        step(step(b, idle(), solid, one_way), idle(), solid, one_way).on_ground,
{
    lemma_rest_one_tick(b, solid, one_way, col, row);
    lemma_rest_one_tick(step(b, idle(), solid, one_way), solid, one_way, col, row);
}

proof fn lemma_rest_one_tick(b: Body, solid: Seq<Chunk>, one_way: Seq<Chunk>, col: int, row: int)
    requires
        -32000 <= col <= 32000,
        -32000 <= row <= 32000,
        b.x == col * 800,
        b.y == row * 800,
        b.vx == 0,
        b.vy == 0,
        tile_in(solid, col, row + 1) != 0,
        tile_in(solid, col, row) == 0,
    ensures
        step(b, idle(), solid, one_way).x == b.x,
        step(b, idle(), solid, one_way).y == b.y,
        step(b, idle(), solid, one_way).vx == 0,
        step(b, idle(), solid, one_way).vy == 0,
        step(b, idle(), solid, one_way).on_ground,
{
    let c = idle();
    assert(force_y(b, c) == 90);
    assert(percent(0, 21) == 0 && percent(0, 7) == 0);
    lemma_aligned_tile(col);
    lemma_aligned_tile(row);
    lemma_div_tile(b.y + 90, row);
    lemma_div_tile(-(b.y + 90), -row - 1);
    let vs = vertical_samples(b.x, b.y + 90);
    if b.y + 90 >= 0 {
        assert(vs[0] == (col, row + 1));
        assert(sample_tile(solid, vs[0]) != 0);
    } else {
        assert(vs[2] == (col, row + 1));
        assert(sample_tile(solid, vs[2]) != 0);
    }
    assert(solid_hit(solid, vs));
    let hs = horizontal_samples(b.x, b.y);
    assert forall|i: int| 0 <= i < hs.len() implies #[trigger] sample_tile(solid, hs[i]) == 0 by {
        assert(hs[i] == (col, row));
    }
}

/// Dropping onto a lone solid tile: while a tick ends above the tile the
/// player keeps falling freely; the tick that first reaches into the tile
/// stands the player on it, with vertical speed zero and its feet exactly on
/// the tile's top boundary. The drop starts within one tile above the floor
/// and moves less than a tile per tick, the column aligned with the tile.
pub proof fn lemma_drop_lands_on_tile(b: Body, solid: Seq<Chunk>, one_way: Seq<Chunk>, col: int, row: int)
    requires
        -32000 <= col <= 32000,
        1 <= row <= 32000,
        forall|tx: int, ty: int| #[trigger] tile_in(solid, tx, ty) != 0 <==> (tx == col && ty == row),
        forall|tx: int, ty: int| #[trigger] tile_in(one_way, tx, ty) == 0,
        b.x == col * 800,
        b.vx == 0,
        0 <= b.vy <= 700,
        0 <= b.y,
        (row - 2) * 800 < b.y,
        b.y + 800 <= row * 800,
    ensures
        b.y + b.vy + 90 + 800 > row * 800 ==> {
            &&& step(b, idle(), solid, one_way).on_ground
            &&& step(b, idle(), solid, one_way).vy == 0
            &&& step(b, idle(), solid, one_way).y + 800 == row * 800
            &&& step(b, idle(), solid, one_way).x == b.x
        },
        b.y + b.vy + 90 + 800 <= row * 800 ==> {
            &&& !step(b, idle(), solid, one_way).on_ground
            &&& step(b, idle(), solid, one_way).vy == b.vy + 90
            &&& step(b, idle(), solid, one_way).y == b.y + b.vy + 90
            &&& step(b, idle(), solid, one_way).x == b.x
        },
{
    let c = idle();
    let ny = b.y + b.vy + 90;
    assert(force_y(b, c) == 90);
    assert(percent(0, 21) == 0 && percent(0, 7) == 0);
    lemma_aligned_tile(col);
    lemma_aligned_tile(row - 1);
    let vs = vertical_samples(b.x, ny);
    if ny + 800 > row * 800 {
        lemma_ceil_tile(ny, row);
        lemma_ceil_tile(b.y, row - 1);
        assert(vs[0] == (col, row));
        assert(sample_tile(solid, vs[0]) != 0);
        assert(solid_hit(solid, vs));
        let hs = horizontal_samples(b.x, (row - 1) * 800);
        assert forall|i: int| 0 <= i < hs.len() implies #[trigger] sample_tile(solid, hs[i]) == 0 by {
            assert(hs[i] == (col, row - 1));
        }
    } else {
        let q = ny / 800;
        lemma_div_tile(ny, q);
        assert forall|i: int| 0 <= i < vs.len() implies #[trigger] sample_tile(solid, vs[i]) == 0 by {
            assert(vs[i].1 <= row - 1);
        }
        assert(!platform_hit(one_way, vs, trunc_div(b.y, 800)));
        let hs = horizontal_samples(b.x, ny);
        assert forall|i: int| 0 <= i < hs.len() implies #[trigger] sample_tile(solid, hs[i]) == 0 by {
            assert(hs[i].1 <= row - 1);
        }
    }
}

proof fn lemma_drag_slows(v: int, pct: int)
    requires
        pct == 7 || pct == 21,
    ensures
        abs(v - percent(v, pct)) <= abs(v),
        abs(v) >= 15 ==> abs(v - percent(v, pct)) < abs(v),
        (v >= 0 ==> v - percent(v, pct) >= 0) && (v <= 0 ==> v - percent(v, pct) <= 0),
{
    if v >= 0 {
        assert(0 <= (v * pct) / 100 <= v) by (nonlinear_arith)
            requires
                v >= 0,
                pct == 7 || pct == 21,
        ;
        if v >= 15 {
            assert((v * pct) / 100 >= 1) by (nonlinear_arith)
                requires
                    v >= 15,
                    pct == 7 || pct == 21,
            ;
        }
    } else {
        assert(0 <= ((-v) * pct) / 100 <= -v) by (nonlinear_arith)
            requires
                v < 0,
                pct == 7 || pct == 21,
        ;
        assert(-(v * pct) == (-v) * pct) by (nonlinear_arith);
        if -v >= 15 {
            assert(((-v) * pct) / 100 >= 1) by (nonlinear_arith)
                requires
                    -v >= 15,
                    pct == 7 || pct == 21,
            ;
        }
    }
}

/// On a flat solid floor, with nothing held, a player standing on the floor
/// stays on it at the same height with no vertical speed, and its horizontal
/// speed strictly shrinks until it is zero, after which the player no longer
/// moves: the speed reaches zero and the position a constant.
pub proof fn lemma_floor_brings_to_rest(b: Body, solid: Seq<Chunk>, one_way: Seq<Chunk>, row: int)
    requires
        -32000 <= row <= 32000,
        b.y == row * 800,
        b.vy == 0,
        forall|tx: int| #[trigger] tile_in(solid, tx, row + 1) != 0,
        forall|tx: int| #[trigger] tile_in(solid, tx, row) == 0,
    ensures
        step(b, idle(), solid, one_way).y == b.y,
        step(b, idle(), solid, one_way).vy == 0,
        step(b, idle(), solid, one_way).on_ground,
        abs(step(b, idle(), solid, one_way).vx) <= abs(b.vx),
        b.vx != 0 ==> abs(step(b, idle(), solid, one_way).vx) < abs(b.vx),
        b.vx == 0 ==> step(b, idle(), solid, one_way).vx == 0 && step(b, idle(), solid, one_way).x
            == b.x,
{
    let c = idle();
    assert(force_y(b, c) == 90);
    let drag = if b.on_ground {
        GROUND_FRICTION as int
    } else {
        AIR_DRAG as int
    };
    lemma_drag_slows(b.vx, drag);
    assert(percent(0, 21) == 0 && percent(0, 7) == 0);
    lemma_aligned_tile(row);
    lemma_div_tile(b.y + 90, row);
    lemma_div_tile(-(b.y + 90), -row - 1);
    let vs = vertical_samples(b.x, b.y + 90);
    if b.y + 90 >= 0 {
        assert(vs[0].1 == row + 1);
        assert(sample_tile(solid, vs[0]) != 0);
    } else {
        assert(vs[2].1 == row + 1);
        assert(sample_tile(solid, vs[2]) != 0);
    }
    assert(solid_hit(solid, vs));
    let vx1 = b.vx - percent(b.vx, drag);
    let hs = horizontal_samples(b.x + vx1, b.y);
    assert forall|i: int| 0 <= i < hs.len() implies #[trigger] sample_tile(solid, hs[i]) == 0 by {
        assert(hs[i].1 == row);
    }
}

} // verus!
