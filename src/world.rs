use vstd::prelude::*;

verus! {

/// Number of tiles along each side of a chunk.
pub const CHUNK_SIDE: usize = 16;

/// Number of tiles in a chunk.
pub const CHUNK_TILES: usize = 256;

/// A square block of tile identifiers at an origin given in tile units.
/// Identifier 0 is an empty cell; any other value `v` shows sheet cell `v - 1`.
pub struct Chunk {
    pub x: i16,
    pub y: i16,
    pub tiles: Vec<i16>,
}

/// `floor(v / 16) * 16`: the origin of the chunk that holds tile coordinate `v`.
pub open spec fn chunk_origin(v: int) -> int {
    (v / 16) * 16
}

/// `floor(p / 8)`: the tile coordinate that holds pixel coordinate `p`.
pub open spec fn tile_of_pixel(p: int) -> int {
    p / 8
}

/// Index into a chunk's tiles of the local cell `(lx, ly)`, row-major.
pub open spec fn local_index(lx: int, ly: int) -> int {
    lx + ly * 16
}

/// Cell of the tile sheet, 32 cells wide, that tile identifier `t` shows:
/// none for the empty tile 0, else cell `t - 1` (remainder and quotient
/// rounded toward zero).
pub open spec fn sheet_cell_of(t: int) -> Option<(int, int)> {
    if t == 0 {
        None
    } else if t - 1 >= 0 {
        Some(((t - 1) % 32, (t - 1) / 32))
    } else {
        Some((-((1 - t) % 32), -((1 - t) / 32)))
    }
}

pub fn sheet_cell(tile: i16) -> (r: Option<(i32, i32)>)
    ensures
        match sheet_cell_of(tile as int) {
            Some((cx, cy)) => r == Some((cx as i32, cy as i32)),
            None => r is None,
        },
{
    if tile == 0 {
        return None;
    }
    let v: i32 = tile as i32 - 1;
    if v >= 0 {
        Some((v % 32, v / 32))
    } else {
        let m: i32 = -v;
        Some((-(m % 32), -(m / 32)))
    }
}

impl Chunk {
    pub open spec fn wf(&self) -> bool {
        self.tiles@.len() == CHUNK_TILES
    }

    /// The tile at local coordinates; a column past 16, or an index past the
    /// end, reads as absent.
    pub open spec fn spec_tile_at(&self, x: int, y: int) -> Option<i16> {
        if x > 16 || local_index(x, y) >= self.tiles@.len() {
            None
        } else {
            Some(self.tiles@[local_index(x, y)])
        }
    }

    /// Whether this chunk spans tile `(tx, ty)`.
    pub open spec fn spans(&self, tx: int, ty: int) -> bool {
        self.x <= tx < self.x + 16 && self.y <= ty < self.y + 16
    }

    pub fn tile_at(&self, x: usize, y: usize) -> (r: Option<i16>)
        requires
            self.wf(),
        ensures
            r == self.spec_tile_at(x as int, y as int),
    {
        if x > 16 {
            return None;
        }
        if y >= CHUNK_SIDE {
            return None;
        }
        let idx: usize = x + y * 16;
        if idx >= self.tiles.len() {
            None
        } else {
            Some(self.tiles[idx])
        }
    }
}

/// Every chunk holds 256 tiles, and reading a tile is total: each local cell
/// of the 16 by 16 block reads its own tile, column 16 reads on into the next
/// row (the first cell of row `y + 1`) except on the last row, and any
/// column past 16 or row past 15 reads as absent.
pub proof fn lemma_tile_at_total(c: Chunk, x: int, y: int)
    requires
        c.wf(),
        0 <= x,
        0 <= y,
    ensures
        c.tiles@.len() == 256,
        x < 16 && y < 16 ==> c.spec_tile_at(x, y) == Some(c.tiles@[x + 16 * y]),
        x == 16 && y < 15 ==> c.spec_tile_at(x, y) == Some(c.tiles@[16 * (y + 1)]),
        x == 16 && y == 15 ==> c.spec_tile_at(x, y) is None,
        (x > 16 || y > 15) ==> c.spec_tile_at(x, y) is None,
{
}

/// A layer is well formed when every chunk holds 256 tiles and no two chunks
/// share an origin.
pub open spec fn layer_wf(s: Seq<Chunk>) -> bool {
    &&& forall|i: int| 0 <= i < s.len() ==> #[trigger] s[i].wf()
    &&& forall|i: int, j: int|
        0 <= i < s.len() && 0 <= j < s.len() && i != j ==> !(#[trigger] s[i].x == #[trigger] s[j].x
            && s[i].y == s[j].y)
}

/// The first chunk at or after position `i` whose origin is `(x, y)`.
pub open spec fn origin_index_from(s: Seq<Chunk>, x: int, y: int, i: int) -> Option<int>
    decreases s.len() - i,
{
    if i >= s.len() || i < 0 {
        None
    } else if s[i].x == x && s[i].y == y {
        Some(i)
    } else {
        origin_index_from(s, x, y, i + 1)
    }
}

/// The position in the layer of the chunk whose origin is exactly `(x, y)`.
pub open spec fn origin_index(s: Seq<Chunk>, x: int, y: int) -> Option<int> {
    origin_index_from(s, x, y, 0)
}

/// The tile of the layer at tile coordinate `(x, y)`; 0 where no chunk owns it.
pub open spec fn tile_in(s: Seq<Chunk>, x: int, y: int) -> i16 {
    match origin_index(s, chunk_origin(x), chunk_origin(y)) {
        Some(i) => s[i].tiles@[local_index(x - s[i].x, y - s[i].y)],
        None => 0,
    }
}

pub proof fn lemma_origin_index_from(s: Seq<Chunk>, x: int, y: int, i: int)
    requires
        0 <= i <= s.len(),
    ensures
        origin_index_from(s, x, y, i) matches Some(k) ==> i <= k < s.len() && s[k].x == x
            && s[k].y == y,
        origin_index_from(s, x, y, i) is None ==> forall|k: int|
            i <= k < s.len() ==> !(#[trigger] s[k].x == x && s[k].y == y),
    decreases s.len() - i,
{
    if i < s.len() {
        lemma_origin_index_from(s, x, y, i + 1);
    }
}

/// Exact-origin lookup finds a chunk with that origin, or reports that the
/// layer has none.
pub proof fn lemma_origin_index(s: Seq<Chunk>, x: int, y: int)
    ensures
        origin_index(s, x, y) matches Some(k) ==> 0 <= k < s.len() && s[k].x == x && s[k].y
            == y,
        origin_index(s, x, y) is None ==> forall|k: int|
            0 <= k < s.len() ==> !(#[trigger] s[k].x == x && s[k].y == y),
{
    lemma_origin_index_from(s, x, y, 0);
}

/// In a well-formed layer the lookup is determined by the origin alone: the
/// chunk it reports is the only one at that origin, and it reports nothing
/// exactly when no chunk lies there.
pub proof fn lemma_chunk_at_unique(s: Seq<Chunk>, x: int, y: int, k: int)
    requires
        layer_wf(s),
        0 <= k < s.len(),
        s[k].x == x,
        s[k].y == y,
    ensures
        origin_index(s, x, y) == Some(k),
{
    lemma_origin_index(s, x, y);
    if let Some(j) = origin_index(s, x, y) {
        if j != k {
            assert(!(s[j].x == s[k].x && s[j].y == s[k].y));
        }
    }
}

pub proof fn lemma_chunk_origin(v: int)
    ensures
        chunk_origin(v) <= v < chunk_origin(v) + 16,
        chunk_origin(v) % 16 == 0,
        0 <= v - chunk_origin(v) < 16,
{
    assert(chunk_origin(v) % 16 == 0) by (nonlinear_arith);
}

/// Going from a pixel to its tile and from the tile to a chunk origin lands on
/// the chunk that owns the pixel: any 16-aligned chunk of a well-formed layer
/// that spans the pixel's tile is the one that exact-origin lookup reports,
/// and the pixel's cell lies inside that chunk's 256 tiles.
pub proof fn lemma_pixel_round_trip(s: Seq<Chunk>, px: int, py: int, k: int)
    requires
        layer_wf(s),
        0 <= k < s.len(),
        s[k].x % 16 == 0,
        s[k].y % 16 == 0,
        s[k].spans(tile_of_pixel(px), tile_of_pixel(py)),
    ensures
        origin_index(s, chunk_origin(tile_of_pixel(px)), chunk_origin(tile_of_pixel(py)))
            == Some(k),
        0 <= local_index(tile_of_pixel(px) - s[k].x, tile_of_pixel(py) - s[k].y) < 256,
        tile_in(s, tile_of_pixel(px), tile_of_pixel(py)) == s[k].tiles@[local_index(
            tile_of_pixel(px) - s[k].x,
            tile_of_pixel(py) - s[k].y,
        )],
{
    let tx = tile_of_pixel(px);
    let ty = tile_of_pixel(py);
    lemma_chunk_origin(tx);
    lemma_chunk_origin(ty);
    lemma_aligned_origin(s[k].x as int, tx);
    lemma_aligned_origin(s[k].y as int, ty);
    lemma_chunk_at_unique(s, chunk_origin(tx), chunk_origin(ty), k);
}

proof fn lemma_aligned_origin(o: int, v: int)
    requires
        o % 16 == 0,
        o <= v < o + 16,
    ensures
        chunk_origin(v) == o,
{
    assert((v / 16) * 16 == o) by (nonlinear_arith)
        requires
            o % 16 == 0,
            o <= v < o + 16,
    ;
}

/// `floor(v / 16) * 16`, computed without leaving the integer domain.
pub fn chunk_origin_of(v: i16) -> (r: i16)
    ensures
        r == chunk_origin(v as int),
{
    if v >= 0 {
        let u: u16 = v as u16;
        let q: u16 = u / 16;
        assert(q * 16 <= u) by (nonlinear_arith)
            requires
                q == u / 16,
        ;
        ((q * 16) as i16)
    } else {
        let u: u32 = (-(v as i32)) as u32;
        let q: u32 = (u + 15) / 16;
        assert(q * 16 == chunk_origin(-(u as int)) * -1 && q * 16 <= 32768) by (nonlinear_arith)
            requires
                q == (u + 15) / 16,
                1 <= u <= 32768,
        ;
        (-((q * 16) as i32)) as i16
    }
}

/// Exact-origin lookup of a chunk in one layer; absence means the block is
/// empty.
pub fn chunk_at(layer: &Vec<Chunk>, x: i16, y: i16) -> (r: Option<&Chunk>)
    ensures
        match origin_index(layer@, x as int, y as int) {
            Some(k) => r == Some(&layer@[k]),
            None => r is None,
        },
{
    proof {
        lemma_origin_index(layer@, x as int, y as int);
    }
    match find_origin(layer, x, y) {
        Some(k) => Some(&layer[k]),
        None => None,
    }
}

/// Position of the chunk at origin `(x, y)` in a layer.
pub fn find_origin(layer: &Vec<Chunk>, x: i16, y: i16) -> (r: Option<usize>)
    ensures
        r matches Some(k) ==> origin_index(layer@, x as int, y as int) == Some(k as int),
        r is None ==> origin_index(layer@, x as int, y as int) is None,
{
    let mut i: usize = 0;
    while i < layer.len()
        invariant
            0 <= i <= layer@.len(),
            origin_index(layer@, x as int, y as int) == origin_index_from(
                layer@,
                x as int,
                y as int,
                i as int,
            ),
        decreases layer@.len() - i,
    {
        if layer[i].x == x && layer[i].y == y {
            return Some(i);
        }
        i = i + 1;
    }
    None
}

/// The tile of a layer at tile coordinate `(x, y)`, 0 where no chunk owns it.
pub fn get_tile(layer: &Vec<Chunk>, x: i16, y: i16) -> (r: i16)
    requires
        layer_wf(layer@),
    ensures
        r == tile_in(layer@, x as int, y as int),
{
    let cx = chunk_origin_of(x);
    let cy = chunk_origin_of(y);
    proof {
        lemma_chunk_origin(x as int);
        lemma_chunk_origin(y as int);
    }
    match find_origin(layer, cx, cy) {
        None => 0,
        Some(k) => {
            proof {
                lemma_origin_index(layer@, cx as int, cy as int);
            }
            let chunk = &layer[k];
            let lx: usize = (x - chunk.x) as usize;
            let ly: usize = (y - chunk.y) as usize;
            assert(chunk.wf());
            assert(0 <= lx < 16 && 0 <= ly < 16);
            assert(local_index(lx as int, ly as int) < 256);
            match chunk.tile_at(lx, ly) {
                Some(t) => t,
                None => 0,
            }
        }
    }
}

/// Two layers whose chunks sit at the same origins, in the same order.
pub open spec fn same_origins(a: Seq<Chunk>, b: Seq<Chunk>) -> bool {
    a.len() == b.len() && forall|i: int| 0 <= i < a.len() ==> #[trigger] a[i].x == b[i].x && a[i].y == b[i].y
}

proof fn lemma_same_origins_index(a: Seq<Chunk>, b: Seq<Chunk>, x: int, y: int, i: int)
    requires
        same_origins(a, b),
        0 <= i <= a.len(),
    ensures
        origin_index_from(a, x, y, i) == origin_index_from(b, x, y, i),
    decreases a.len() - i,
{
    if i < a.len() {
        assert(a[i].x == b[i].x && a[i].y == b[i].y);
        lemma_same_origins_index(a, b, x, y, i + 1);
    }
}

/// After one cell of chunk `k` is overwritten with `tile`, tile lookup reads
/// `tile` at that cell and what it read before everywhere else.
proof fn lemma_tile_in_after_write(old_s: Seq<Chunk>, new_s: Seq<Chunk>, k: int, x: int, y: int, tile: i16, a: int, b: int)
    requires
        layer_wf(old_s),
        same_origins(old_s, new_s),
        0 <= k < old_s.len(),
        origin_index(old_s, chunk_origin(x), chunk_origin(y)) == Some(k),
        forall|j: int| 0 <= j < old_s.len() && j != k ==> #[trigger] new_s[j] == old_s[j],
        new_s[k].tiles@ == old_s[k].tiles@.update(local_index(x - old_s[k].x, y - old_s[k].y), tile),
    ensures
        tile_in(new_s, a, b) == if a == x && b == y {
            tile
        } else {
            tile_in(old_s, a, b)
        },
{
    lemma_same_origins_index(old_s, new_s, chunk_origin(a), chunk_origin(b), 0);
    lemma_origin_index(old_s, chunk_origin(a), chunk_origin(b));
    lemma_origin_index(old_s, chunk_origin(x), chunk_origin(y));
    lemma_chunk_origin(a);
    lemma_chunk_origin(b);
    lemma_chunk_origin(x);
    lemma_chunk_origin(y);
    if let Some(j) = origin_index(old_s, chunk_origin(a), chunk_origin(b)) {
        if j == k {
            assert(old_s[k].wf());
            assert(chunk_origin(a) == chunk_origin(x) && chunk_origin(b) == chunk_origin(y));
            if !(a == x && b == y) {
                assert(local_index(a - old_s[k].x, b - old_s[k].y) != local_index(x - old_s[k].x, y - old_s[k].y));
            }
        }
    }
}

/// The five tile layers of a level.
pub struct World {
    pub collision: Vec<Chunk>,
    pub one_way_collision: Vec<Chunk>,
    pub details: Vec<Chunk>,
    pub background: Vec<Chunk>,
    pub interactable: Vec<Chunk>,
}

/// Whether tile `ti` of chunk `ci` is the marker `id`, stored as `id + 1`.
pub open spec fn is_marker(s: Seq<Chunk>, id: int, ci: int, ti: int) -> bool {
    0 <= ci < s.len() && 0 <= ti < s[ci].tiles@.len() && s[ci].tiles@[ti] == id + 1
}

/// Whether `(cj, tj)` comes before `(ci, ti)` in scan order: chunk by chunk,
/// each chunk's tiles in row-major order.
pub open spec fn scanned_before(cj: int, tj: int, ci: int, ti: int) -> bool {
    cj < ci || (cj == ci && tj < ti)
}

/// Pixel position of the center of tile `ti` of chunk `c`.
pub open spec fn marker_pixel(c: Chunk, ti: int) -> (int, int) {
    ((ti % 16 + c.x) * 8 + 4, (ti / 16 + c.y) * 8 + 4)
}

/// Whether `(ci, ti)` holds marker `id` and no tile scanned before it does.
pub open spec fn first_marker(s: Seq<Chunk>, id: int, ci: int, ti: int) -> bool {
    &&& is_marker(s, id, ci, ti)
    &&& forall|cj: int, tj: int| scanned_before(cj, tj, ci, ti) ==> !is_marker(s, id, cj, tj)
}

/// Pixel position of the first tile of the layer that holds marker `id`.
pub open spec fn spawn_of(s: Seq<Chunk>, id: int) -> Option<(int, int)> {
    if exists|ci: int, ti: int| first_marker(s, id, ci, ti) {
        let (ci, ti) = choose|ci: int, ti: int| first_marker(s, id, ci, ti);
        Some(marker_pixel(s[ci], ti))
    } else {
        None
    }
}

/// There is at most one first marker.
pub proof fn lemma_first_marker_unique(s: Seq<Chunk>, id: int, ci: int, ti: int, cj: int, tj: int)
    requires
        first_marker(s, id, ci, ti),
        first_marker(s, id, cj, tj),
    ensures
        ci == cj && ti == tj,
{
    if scanned_before(cj, tj, ci, ti) {
        assert(!is_marker(s, id, cj, tj));
    } else if scanned_before(ci, ti, cj, tj) {
        assert(!is_marker(s, id, ci, ti));
    }
}

impl World {
    pub open spec fn wf(&self) -> bool {
        &&& layer_wf(self.collision@)
        &&& layer_wf(self.one_way_collision@)
        &&& layer_wf(self.details@)
        &&& layer_wf(self.background@)
        &&& layer_wf(self.interactable@)
    }

    /// Whether a chunk of the solid layer owns tile `(x, y)`.
    pub open spec fn owns_collision_tile(&self, x: int, y: int) -> bool {
        origin_index(self.collision@, chunk_origin(x), chunk_origin(y)) is Some
    }

    /// The solid-layer chunk at origin `(x, y)`.
    pub fn get_collision_chunk(&self, x: i16, y: i16) -> (r: Option<&Chunk>)
        ensures
            match origin_index(self.collision@, x as int, y as int) {
                Some(k) => r == Some(&self.collision@[k]),
                None => r is None,
            },
    {
        chunk_at(&self.collision, x, y)
    }

    /// The one-way-layer chunk at origin `(x, y)`.
    pub fn get_one_way_collision_chunk(&self, x: i16, y: i16) -> (r: Option<&Chunk>)
        ensures
            match origin_index(self.one_way_collision@, x as int, y as int) {
                Some(k) => r == Some(&self.one_way_collision@[k]),
                None => r is None,
            },
    {
        chunk_at(&self.one_way_collision, x, y)
    }

    /// Overwrites the solid tile at tile coordinate `(x, y)` in the chunk that
    /// owns it; every other tile, chunk and layer is left as it was.
    pub fn set_collision_tile(&mut self, x: i16, y: i16, tile: i16)
        requires
            old(self).wf(),
            old(self).owns_collision_tile(x as int, y as int),
        ensures
            final(self).wf(),
            ({
                let k = origin_index(old(self).collision@, chunk_origin(x as int), chunk_origin(y as int))->0;
                let c = old(self).collision@[k];
                &&& final(self).collision@.len() == old(self).collision@.len()
                &&& forall|j: int|
                    0 <= j < old(self).collision@.len() && j != k ==> #[trigger] final(self).collision@[j]
                        == old(self).collision@[j]
                &&& final(self).collision@[k].x == c.x
                &&& final(self).collision@[k].y == c.y
                &&& final(self).collision@[k].tiles@ == c.tiles@.update(
                    local_index(x - c.x, y - c.y),
                    tile,
                )
            }),
            forall|a: int, b: int|
                #[trigger] tile_in(final(self).collision@, a, b) == if a == x && b == y {
                    tile
                } else {
                    tile_in(old(self).collision@, a, b)
                },
            forall|a: int, b: int|
                #[trigger] final(self).owns_collision_tile(a, b) == old(self).owns_collision_tile(a, b),
            final(self).one_way_collision == old(self).one_way_collision,
            final(self).details == old(self).details,
            final(self).background == old(self).background,
            final(self).interactable == old(self).interactable,
    {
        let cx = chunk_origin_of(x);
        let cy = chunk_origin_of(y);
        proof {
            lemma_chunk_origin(x as int);
            lemma_chunk_origin(y as int);
            lemma_origin_index(self.collision@, cx as int, cy as int);
        }
        let k = match find_origin(&self.collision, cx, cy) {
            Some(k) => k,
            None => { return; },
        };
        let idx: usize = ((x - cx) + (y - cy) * 16) as usize;
        proof {
            assert(self.collision@[k as int].wf());
        }
        let ghost pre = *self;
        self.collision[k].tiles[idx] = tile;
        proof {
            assert forall|i: int| 0 <= i < self.collision@.len() implies #[trigger] self.collision@[i].wf() by {
                assert(pre.collision@[i].wf());
            }
            assert forall|i: int, j: int|
                0 <= i < self.collision@.len() && 0 <= j < self.collision@.len() && i != j
                implies !(#[trigger] self.collision@[i].x == #[trigger] self.collision@[j].x
                && self.collision@[i].y == self.collision@[j].y) by {
                assert(!(pre.collision@[i].x == pre.collision@[j].x
                    && pre.collision@[i].y == pre.collision@[j].y));
            }
            assert(same_origins(pre.collision@, self.collision@));
            assert forall|a: int, b: int|
                #[trigger] tile_in(self.collision@, a, b) == if a == x && b == y {
                    tile
                } else {
                    tile_in(pre.collision@, a, b)
                } by {
                lemma_tile_in_after_write(pre.collision@, self.collision@, k as int, x as int, y as int, tile, a, b);
            }
            assert forall|a: int, b: int|
                #[trigger] self.owns_collision_tile(a, b) == pre.owns_collision_tile(a, b) by {
                lemma_same_origins_index(pre.collision@, self.collision@, chunk_origin(a), chunk_origin(b), 0);
            }
        }
    }

    /// Pixel-space center of the first tile of the interactable layer that holds
    /// marker `tile_index` (stored as `tile_index + 1`), scanning chunk by chunk
    /// and each chunk in row-major order; nothing when no tile holds it.
    pub fn get_interactable_spawn(&self, tile_index: i16) -> (r: Option<(i32, i32)>)
        requires
            layer_wf(self.interactable@),
        ensures
            r is None <==> forall|ci: int, ti: int| !is_marker(self.interactable@, tile_index as int, ci, ti),
            r matches Some(p) ==> spawn_of(self.interactable@, tile_index as int) == Some(
                (p.0 as int, p.1 as int),
            ),
            r is None ==> spawn_of(self.interactable@, tile_index as int) is None,
            r matches Some(p) ==> -300000 <= p.0 <= 300000 && -300000 <= p.1 <= 300000,
            r matches Some(p) ==> exists|ci: int, ti: int|
                {
                    &&& #[trigger] is_marker(self.interactable@, tile_index as int, ci, ti)
                    &&& marker_pixel(self.interactable@[ci], ti) == (p.0 as int, p.1 as int)
                    &&& forall|cj: int, tj: int|
                        scanned_before(cj, tj, ci, ti) ==> !is_marker(
                            self.interactable@,
                            tile_index as int,
                            cj,
                            tj,
                        )
                },
    {
        let layer = &self.interactable;
        let want: i32 = tile_index as i32 + 1;
        let mut ci: usize = 0;
        while ci < layer.len()
            invariant
                0 <= ci <= layer@.len(),
                layer == &self.interactable,
                want == tile_index as i32 + 1,
                layer_wf(layer@),
                forall|cj: int, tj: int| cj < ci ==> !is_marker(layer@, tile_index as int, cj, tj),
            decreases layer@.len() - ci,
        {
            let chunk = &layer[ci];
            assert(chunk.wf());
            let mut ti: usize = 0;
            while ti < chunk.tiles.len()
                invariant
                    0 <= ci < layer@.len(),
                    chunk == &layer@[ci as int],
                    chunk.wf(),
                    0 <= ti <= chunk.tiles@.len(),
                    layer == &self.interactable,
                    layer_wf(layer@),
                    want == tile_index as i32 + 1,
                    forall|cj: int, tj: int|
                        scanned_before(cj, tj, ci as int, ti as int) ==> !is_marker(
                            layer@,
                            tile_index as int,
                            cj,
                            tj,
                        ),
                decreases chunk.tiles@.len() - ti,
            {
                if chunk.tiles[ti] as i32 == want {
                    let px: i32 = ((ti % 16) as i32 + chunk.x as i32) * 8 + 4;
                    let py: i32 = ((ti / 16) as i32 + chunk.y as i32) * 8 + 4;
                    assert(is_marker(layer@, tile_index as int, ci as int, ti as int));
                    proof {
                        let id = tile_index as int;
                        assert(first_marker(layer@, id, ci as int, ti as int));
                        let (a, b) = choose|a: int, b: int| first_marker(layer@, id, a, b);
                        lemma_first_marker_unique(layer@, id, a, b, ci as int, ti as int);
                    }
                    return Some((px, py));
                }
                assert(!is_marker(layer@, tile_index as int, ci as int, ti as int));
                assert forall|cj: int, tj: int|
                    scanned_before(cj, tj, ci as int, ti + 1) implies !is_marker(
                        layer@,
                        tile_index as int,
                        cj,
                        tj,
                    ) by {
                    if !(cj == ci && tj == ti) {
                        assert(scanned_before(cj, tj, ci as int, ti as int));
                    }
                }
                ti = ti + 1;
            }
            assert forall|cj: int, tj: int| cj < ci + 1 implies !is_marker(layer@, tile_index as int, cj, tj) by {
                if cj == ci && 0 <= tj < chunk.tiles@.len() {
                    assert(scanned_before(cj, tj, ci as int, ti as int));
                }
            }
            ci = ci + 1;
        }
        None
    }
}

} // verus!
