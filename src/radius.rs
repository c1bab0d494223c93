use vstd::prelude::*;

verus! {

broadcast use vstd::seq_lib::group_to_multiset_ensures;

/// A chunk coordinate on the chunk grid.
#[derive(PartialEq, Eq, Structural, Clone, Copy, Debug, Hash)]
pub struct ChunkPos {
    pub x: i32,
    pub y: i32,
    pub z: i32,
}

/// How far around a chunk others are wanted, in chunks: a disc of radius
/// `horizontal`, `vertical` chunks below and above.
#[derive(PartialEq, Eq, Structural, Clone, Copy, Debug, Hash)]
pub struct ViewRadius {
    pub horizontal: i32,
    pub vertical: i32,
}

/// The chunk a player stands in.
#[derive(PartialEq, Eq, Structural, Clone, Copy, Debug, Hash)]
pub struct PlayerChunk {
    pub chunk_pos: ChunkPos,
}

/// Decides which chunks should be present around a chunk.
#[derive(PartialEq, Eq, Structural, Clone, Copy, Debug, Hash)]
pub struct ChunkManager {
    pub view_radius: ViewRadius,
}

pub open spec fn sq(a: int) -> int {
    a * a
}

/// The squared distance between two chunk coordinates.
pub open spec fn dist2(c: ChunkPos, p: ChunkPos) -> int {
    sq(p.x - c.x) + sq(p.y - c.y) + sq(p.z - c.z)
}

/// Whether offset `(x, z)` lies strictly inside the disc of radius `h`.
pub open spec fn in_disc(x: int, z: int, h: int) -> bool {
    sq(x) + sq(z) < sq(h)
}

/// The coordinate at offset `(x, y, z)` from `c`, raised to height 0 when it
/// would lie below it.
pub open spec fn offset_pos(c: ChunkPos, x: int, y: int, z: int) -> ChunkPos {
    ChunkPos {
        x: (c.x + x) as i32,
        y: (if c.y + y < 0 {
            0
        } else {
            c.y + y
        }) as i32,
        z: (c.z + z) as i32,
    }
}

/// The coordinates at offsets `(x, y', z)` for `y'` from `-v` up to `y`.
pub open spec fn column(c: ChunkPos, x: int, z: int, v: int, y: int) -> Seq<ChunkPos>
    decreases y + v,
{
    if y <= -v {
        Seq::empty()
    } else {
        column(c, x, z, v, y - 1).push(offset_pos(c, x, y - 1, z))
    }
}

/// The columns at offsets `(x, z')` inside the disc, for `z'` from `-h` up to `z`.
pub open spec fn row(c: ChunkPos, x: int, h: int, v: int, z: int) -> Seq<ChunkPos>
    decreases z + h,
{
    if z <= -h {
        Seq::empty()
    } else {
        row(c, x, h, v, z - 1) + if in_disc(x, z - 1, h) {
            column(c, x, z - 1, v, v)
        } else {
            Seq::empty()
        }
    }
}

/// The rows at offsets `x'` from `-h` up to `x`.
pub open spec fn rows(c: ChunkPos, h: int, v: int, x: int) -> Seq<ChunkPos>
    decreases x + h,
{
    if x <= -h {
        Seq::empty()
    } else {
        rows(c, h, v, x - 1) + row(c, x - 1, h, v, h)
    }
}

/// The coordinates around `c` within the radius, in the order x, then z,
/// then y: offsets inside the disc of radius `h` in x and z, each with every
/// y from `-v` to `v - 1`, heights below 0 raised to 0.
pub open spec fn region(c: ChunkPos, radius: ViewRadius) -> Seq<ChunkPos> {
    rows(c, radius.horizontal as int, radius.vertical as int, radius.horizontal as int)
}

/// Whether the coordinates of the region around `c` fit in `i32`.
pub open spec fn region_fits(c: ChunkPos, radius: ViewRadius) -> bool {
    let h = radius.horizontal as int;
    let v = radius.vertical as int;
    h <= 0 || v <= 0 || (i32::MIN <= c.x - h && c.x + h - 1 <= i32::MAX && i32::MIN <= c.z - h
        && c.z + h - 1 <= i32::MAX && i32::MIN <= c.y - v && c.y + v - 1 <= i32::MAX)
}

/// Whether `p` is a coordinate of the region around `c`: inside the disc,
/// and at a height some y offset in `[-v, v)` gives once raised to 0.
pub open spec fn in_view(c: ChunkPos, radius: ViewRadius, p: ChunkPos) -> bool {
    let v = radius.vertical as int;
    &&& in_disc(p.x - c.x, p.z - c.z, radius.horizontal as int)
    &&& p.y >= 0
    &&& v > 0
    &&& ((p.y == 0 && c.y - v <= 0) || (c.y - v <= p.y < c.y + v))
}

proof fn lemma_column_contains(c: ChunkPos, x: int, z: int, v: int, y: int, y0: int)
    requires
        -v <= y0 < y,
    ensures
        column(c, x, z, v, y).contains(offset_pos(c, x, y0, z)),
    decreases y + v,
{
    let s = column(c, x, z, v, y);
    if y0 == y - 1 {
        assert(s[s.len() - 1] == offset_pos(c, x, y0, z));
    } else {
        lemma_column_contains(c, x, z, v, y - 1, y0);
        let t = column(c, x, z, v, y - 1);
        let i = choose|i: int| 0 <= i < t.len() && #[trigger] t[i] == offset_pos(c, x, y0, z);
        assert(s[i] == offset_pos(c, x, y0, z));
    }
}

proof fn lemma_concat_contains(a: Seq<ChunkPos>, b: Seq<ChunkPos>, e: ChunkPos)
    requires
        a.contains(e) || b.contains(e),
    ensures
        (a + b).contains(e),
{
    if a.contains(e) {
        let i = choose|i: int| 0 <= i < a.len() && #[trigger] a[i] == e;
        assert((a + b)[i] == e);
    } else {
        let i = choose|i: int| 0 <= i < b.len() && #[trigger] b[i] == e;
        assert((a + b)[a.len() + i] == e);
    }
}

proof fn lemma_row_contains(c: ChunkPos, x: int, h: int, v: int, z: int, z0: int, y0: int)
    requires
        -h <= z0 < z,
        in_disc(x, z0, h),
        -v <= y0 < v,
    ensures
        row(c, x, h, v, z).contains(offset_pos(c, x, y0, z0)),
    decreases z + h,
{
    let e = offset_pos(c, x, y0, z0);
    let extra = if in_disc(x, z - 1, h) {
        column(c, x, z - 1, v, v)
    } else {
        Seq::empty()
    };
    if z0 == z - 1 {
        lemma_column_contains(c, x, z0, v, v, y0);
    } else {
        lemma_row_contains(c, x, h, v, z - 1, z0, y0);
    }
    lemma_concat_contains(row(c, x, h, v, z - 1), extra, e);
}

proof fn lemma_rows_contains(c: ChunkPos, h: int, v: int, x: int, x0: int, z0: int, y0: int)
    requires
        -h <= x0 < x,
        -h <= z0 < h,
        in_disc(x0, z0, h),
        -v <= y0 < v,
    ensures
        rows(c, h, v, x).contains(offset_pos(c, x0, y0, z0)),
    decreases x + h,
{
    if x0 == x - 1 {
        lemma_row_contains(c, x0, h, v, h, z0, y0);
    } else {
        lemma_rows_contains(c, h, v, x - 1, x0, z0, y0);
    }
    lemma_concat_contains(rows(c, h, v, x - 1), row(c, x - 1, h, v, h), offset_pos(c, x0, y0, z0));
}

/// The squared distance between `c` and `p`.
fn distance_key(c: ChunkPos, p: ChunkPos) -> (r: u64)
    requires
        -0x8000_0000 <= p.x - c.x <= 0x8000_0000,
        -0x8000_0000 <= p.y - c.y <= 0x8000_0000,
        -0x8000_0000 <= p.z - c.z <= 0x8000_0000,
    ensures
        r == dist2(c, p),
{
    let dx = p.x as i64 - c.x as i64;
    let dy = p.y as i64 - c.y as i64;
    let dz = p.z as i64 - c.z as i64;
    assert(dx * dx <= 0x4000_0000_0000_0000) by (nonlinear_arith)
        requires
            -0x8000_0000 <= dx <= 0x8000_0000,
    ;
    assert(dy * dy <= 0x4000_0000_0000_0000) by (nonlinear_arith)
        requires
            -0x8000_0000 <= dy <= 0x8000_0000,
    ;
    assert(dz * dz <= 0x4000_0000_0000_0000) by (nonlinear_arith)
        requires
            -0x8000_0000 <= dz <= 0x8000_0000,
    ;
    assert(dx * dx >= 0 && dy * dy >= 0 && dz * dz >= 0) by (nonlinear_arith);
    let a = (dx * dx) as u64;
    let b = (dy * dy) as u64;
    let d = (dz * dz) as u64;
    a + b + d
}

/// What makes a coordinate of the region a valid sort key: its offsets from
/// the centre fit the squared-distance computation.
pub open spec fn near(c: ChunkPos, p: ChunkPos) -> bool {
    &&& -0x8000_0000 <= p.x - c.x <= 0x8000_0000
    &&& -0x8000_0000 <= p.y - c.y <= 0x8000_0000
    &&& -0x8000_0000 <= p.z - c.z <= 0x8000_0000
}

proof fn lemma_in_view_near(c: ChunkPos, radius: ViewRadius, p: ChunkPos)
    requires
        in_view(c, radius, p),
    ensures
        near(c, p),
{
    let h = radius.horizontal as int;
    let dx = p.x - c.x;
    let dz = p.z - c.z;
    assert(dx * dx < 0x4000_0000_0000_0001 && dz * dz < 0x4000_0000_0000_0001) by (nonlinear_arith)
        requires
            dx * dx + dz * dz < h * h,
            h <= 0x7fff_ffff,
            h >= -0x8000_0000,
    ;
    assert(-0x8000_0000 <= dx <= 0x8000_0000) by (nonlinear_arith)
        requires
            dx * dx < 0x4000_0000_0000_0001,
    ;
    assert(-0x8000_0000 <= dz <= 0x8000_0000) by (nonlinear_arith)
        requires
            dz * dz < 0x4000_0000_0000_0001,
    ;
}

/// Sorts by squared distance from `c`, nearest first, keeping the elements.
fn sort_by_distance(c: ChunkPos, v: &mut Vec<ChunkPos>)
    requires
        forall|i: int| 0 <= i < old(v)@.len() ==> near(c, #[trigger] old(v)@[i]),
    ensures
        final(v)@.to_multiset() == old(v)@.to_multiset(),
        forall|i: int, j: int|
            0 <= i < j < final(v)@.len() ==> dist2(c, #[trigger] final(v)@[i]) <= dist2(
                c,
                #[trigger] final(v)@[j],
            ),
        forall|i: int| 0 <= i < final(v)@.len() ==> old(v)@.contains(#[trigger] final(v)@[i]),
{
    let ghost orig = v@;
    let n = v.len();
    let mut i: usize = 1;
    if n == 0 {
        return;
    }
    while i < n
        invariant
            1 <= i <= n,
            n == v@.len(),
            v@.to_multiset() == orig.to_multiset(),
            forall|k: int| 0 <= k < n ==> orig.contains(#[trigger] v@[k]),
            forall|k: int| 0 <= k < n ==> near(c, #[trigger] v@[k]),
            forall|a: int, b: int|
                0 <= a < b < i ==> dist2(c, #[trigger] v@[a]) <= dist2(c, #[trigger] v@[b]),
        decreases n - i,
    {
        let mut j: usize = i;
        while j > 0 && distance_key(c, v[j - 1]) > distance_key(c, v[j])
            invariant
                0 <= j <= i < n,
                n == v@.len(),
                v@.to_multiset() == orig.to_multiset(),
                forall|k: int| 0 <= k < n ==> orig.contains(#[trigger] v@[k]),
                forall|k: int| 0 <= k < n ==> near(c, #[trigger] v@[k]),
                // the prefix without position j is sorted
                forall|a: int, b: int|
                    0 <= a < b <= i && a != j && b != j ==> dist2(c, #[trigger] v@[a]) <= dist2(
                        c,
                        #[trigger] v@[b],
                    ),
                // the element at j is below everything after it
                forall|b: int| j < b <= i ==> dist2(c, v@[j as int]) < dist2(c, #[trigger] v@[b]),
            decreases j,
        {
            let a = v[j - 1];
            let b = v[j];
            let ghost before = v@;
            v.set(j - 1, b);
            v.set(j, a);
            proof {
                vstd::seq_lib::to_multiset_update(before, (j - 1) as int, b);
                vstd::seq_lib::to_multiset_update(before.update((j - 1) as int, b), j as int, a);
                assert(v@.to_multiset() =~= before.to_multiset());
                assert forall|k: int| 0 <= k < n implies orig.contains(#[trigger] v@[k]) by {
                    if k == j - 1 {
                        assert(orig.contains(before[j as int]));
                    } else if k == j {
                        assert(orig.contains(before[j - 1]));
                    } else {
                        assert(v@[k] == before[k]);
                    }
                }
                assert forall|k: int| 0 <= k < n implies near(c, #[trigger] v@[k]) by {
                    if k == j - 1 {
                        assert(near(c, before[j as int]));
                    } else if k == j {
                        assert(near(c, before[j - 1]));
                    } else {
                        assert(v@[k] == before[k]);
                    }
                }
            }
            j = j - 1;
        }
        i = i + 1;
    }
}

impl ChunkManager {
    /// The coordinates within the view radius of `chunk_pos`, nearest first:
    /// every offset `(x, y, z)` with `x² + z² < horizontal²` and
    /// `-vertical <= y < vertical`, heights below 0 raised to 0. Raising can
    /// give one coordinate several times; each offset is listed once.
    pub fn get_chunk_positions(&self, chunk_pos: ChunkPos) -> (r: Vec<ChunkPos>)
        requires
            region_fits(chunk_pos, self.view_radius),
        ensures
            r@.to_multiset() == region(chunk_pos, self.view_radius).to_multiset(),
            forall|i: int, j: int|
                0 <= i < j < r@.len() ==> dist2(chunk_pos, #[trigger] r@[i]) <= dist2(
                    chunk_pos,
                    #[trigger] r@[j],
                ),
            forall|i: int| 0 <= i < r@.len() ==> in_view(chunk_pos, self.view_radius, #[trigger] r@[i]),
            self.view_radius.horizontal > 0 && self.view_radius.vertical > 0 && chunk_pos.y >= 0
                ==> r@.len() > 0 && r@[0] == chunk_pos,
    {
        let c = chunk_pos;
        let radius = self.view_radius;
        let h = radius.horizontal as i64;
        let v = radius.vertical as i64;
        let mut chunks: Vec<ChunkPos> = Vec::new();
        let mut x: i64 = -h;
        while x < h
            invariant
                -h <= x,
                x <= h || x == -h,
                h == radius.horizontal,
                v == radius.vertical,
                region_fits(c, radius),
                chunks@ == rows(c, h as int, v as int, x as int),
                forall|i: int| 0 <= i < chunks@.len() ==> in_view(c, radius, #[trigger] chunks@[i]),
            decreases h - x,
        {
            let ghost base = chunks@;
            let mut z: i64 = -h;
            while z < h
                invariant
                    -h <= x < h,
                    -h <= z <= h,
                    h == radius.horizontal,
                    v == radius.vertical,
                    region_fits(c, radius),
                    base == rows(c, h as int, v as int, x as int),
                    chunks@ == base + row(c, x as int, h as int, v as int, z as int),
                    forall|i: int| 0 <= i < chunks@.len() ==> in_view(c, radius, #[trigger] chunks@[i]),
                decreases h - z,
            {
                let ghost base2 = chunks@;
                assert(0 <= x * x <= 0x3fff_ffff_0000_0001 && 0 <= z * z <= 0x3fff_ffff_0000_0001 && 0
                    <= h * h <= 0x3fff_ffff_0000_0001) by (nonlinear_arith)
                    requires
                        -h <= x < h,
                        -h <= z < h,
                        h <= 0x7fff_ffff,
                ;
                let inside = x * x + z * z < h * h;
                if inside {
                    let mut y: i64 = -v;
                    while y < v
                        invariant
                            -h <= x < h,
                            -h <= z < h,
                            -v <= y,
                            y <= v || y == -v,
                            h == radius.horizontal,
                            v == radius.vertical,
                            region_fits(c, radius),
                            in_disc(x as int, z as int, h as int),
                            base2 == base + row(c, x as int, h as int, v as int, z as int),
                            chunks@ == base2 + column(c, x as int, z as int, v as int, y as int),
                            forall|i: int|
                                0 <= i < chunks@.len() ==> in_view(c, radius, #[trigger] chunks@[i]),
                        decreases v - y,
                    {
                        let py = c.y as i64 + y;
                        let p = ChunkPos {
                            x: (c.x as i64 + x) as i32,
                            y: if py < 0 {
                                0
                            } else {
                                py as i32
                            },
                            z: (c.z as i64 + z) as i32,
                        };
                        assert(p == offset_pos(c, x as int, y as int, z as int));
                        chunks.push(p);
                        assert(chunks@ =~= base2 + column(c, x as int, z as int, v as int, (y + 1) as int));
                        y = y + 1;
                    }
                }
                assert(chunks@ =~= base + row(c, x as int, h as int, v as int, (z + 1) as int));
                z = z + 1;
            }
            assert(chunks@ =~= rows(c, h as int, v as int, (x + 1) as int));
            x = x + 1;
        }
        let ghost built = chunks@;
        proof {
            assert(built == region(c, radius));
            assert forall|i: int| 0 <= i < built.len() implies near(c, #[trigger] built[i]) by {
                lemma_in_view_near(c, radius, built[i]);
            }
        }
        sort_by_distance(c, &mut chunks);
        proof {
            assert forall|i: int| 0 <= i < chunks@.len() implies in_view(c, radius, #[trigger] chunks@[i]) by {
                assert(built.contains(chunks@[i]));
            }
            if radius.horizontal > 0 && radius.vertical > 0 && c.y >= 0 {
                assert(sq(h as int) > 0) by (nonlinear_arith)
                    requires
                        h > 0,
                ;
                lemma_rows_contains(c, h as int, v as int, h as int, 0, 0, 0);
                assert(offset_pos(c, 0, 0, 0) == c);
                assert(built.to_multiset().count(c) > 0);
                assert(chunks@.contains(c));
                let j = choose|j: int| 0 <= j < chunks@.len() && #[trigger] chunks@[j] == c;
                assert(dist2(c, c) == 0);
                let f = chunks@[0];
                if j > 0 {
                    assert(dist2(c, chunks@[0]) <= dist2(c, chunks@[j]));
                }
                assert(f == c) by (nonlinear_arith)
                    requires
                        sq(f.x - c.x) + sq(f.y - c.y) + sq(f.z - c.z) <= 0,
                ;
            }
        }
        chunks
    }
}

/// Whether `pos` lies beyond the view radius around `chunk`, with the radii
/// scaled by the chunk edge of 16: beyond the disc horizontally, or beyond
/// the vertical extent. A radius of 0 or less reports nothing as beyond.
pub open spec fn beyond_radius(chunk: ChunkPos, pos: ChunkPos, radius: ViewRadius) -> bool {
    let h = radius.horizontal as int;
    let v = radius.vertical as int;
    h > 0 && (sq(pos.x - chunk.x) + sq(pos.z - chunk.z) > sq(h) * 256 || sq(pos.y - chunk.y) > sq(v)
        * 256)
}

impl PlayerChunk {
    /// Whether `pos` lies beyond `view_radius` around the player's chunk,
    /// with the radii scaled by the chunk edge (see [`beyond_radius`]).
    pub fn is_in_radius(&self, pos: ChunkPos, view_radius: &ViewRadius) -> (r: bool)
        ensures
            r == beyond_radius(self.chunk_pos, pos, *view_radius),
    {
        let h = view_radius.horizontal as i128;
        let v = view_radius.vertical as i128;
        if h <= 0 {
            return false;
        }
        let dx = pos.x as i128 - self.chunk_pos.x as i128;
        let dy = pos.y as i128 - self.chunk_pos.y as i128;
        let dz = pos.z as i128 - self.chunk_pos.z as i128;
        assert(0 <= dx * dx <= 0x1_0000_0000_0000_0000 && 0 <= dz * dz <= 0x1_0000_0000_0000_0000
            && 0 <= dy * dy <= 0x1_0000_0000_0000_0000 && 0 <= h * h <= 0x1_0000_0000_0000_0000 && 0
            <= v * v <= 0x1_0000_0000_0000_0000) by (nonlinear_arith)
            requires
                -0x1_0000_0000 <= dx <= 0x1_0000_0000,
                -0x1_0000_0000 <= dy <= 0x1_0000_0000,
                -0x1_0000_0000 <= dz <= 0x1_0000_0000,
                -0x8000_0000 <= h <= 0x8000_0000,
                -0x8000_0000 <= v <= 0x8000_0000,
        ;
        dx * dx + dz * dz > h * h * 256 || dy * dy > v * v * 256
    }
}

} // verus!
