//! The spatial window: which chunks should be resident around a viewer.
use vstd::prelude::*;
use vstd::arithmetic::div_mod::{lemma_fundamental_div_mod, lemma_div_multiples_vanish, lemma_mod_multiples_basic};
use vstd::arithmetic::mul::lemma_mul_is_commutative;

verus! {

/// A chunk is named by the world coordinates of its corner.
pub type ChunkKey = (i32, i32);

/// The corner of the chunk of edge `n` that contains coordinate `p`:
/// `p` divided by `n` rounded down, times `n` (division of `int` by a
/// positive divisor rounds down).
pub open spec fn snap(p: int, n: int) -> int {
    (p / n) * n
}

/// The disk test on offsets, with one unit of slack beyond the true disk.
pub open spec fn in_disk(i: int, z: int, r: int) -> bool {
    i * i + z * z <= r * r + 1
}

/// Offsets in the square `[-r, r]²` that pass the disk test.
pub open spec fn in_ring(i: int, z: int, r: int) -> bool {
    &&& -r <= i <= r
    &&& -r <= z <= r
    &&& in_disk(i, z, r)
}

/// Whether `k` is the corner of a chunk whose offset from the chunk at
/// `(cx, cz)`, counted in chunks of `nx` by `nz`, lies in the ring of
/// radius `r`.
pub open spec fn in_window(k: ChunkKey, cx: int, cz: int, nx: int, nz: int, r: int) -> bool {
    &&& (k.0 - cx) % nx == 0
    &&& (k.1 - cz) % nz == 0
    &&& in_ring((k.0 - cx) / nx, (k.1 - cz) / nz, r)
}

pub open spec fn window_set(cx: int, cz: int, nx: int, nz: int, r: int) -> Set<ChunkKey> {
    Set::new(|k: ChunkKey| in_window(k, cx, cz, nx, nz, r))
}

/// The corner of the chunk at offset `(a, b)` from the chunk at `(cx, cz)`.
pub open spec fn key_at(cx: int, cz: int, nx: int, nz: int, a: int, b: int) -> (int, int) {
    (cx + a * nx, cz + b * nz)
}

/// The whole window around the chunk at `(cx, cz)` has corners that fit
/// an `i32`.
pub open spec fn window_fits(cx: int, cz: int, nx: int, nz: int, r: int) -> bool {
    &&& i32::MIN <= cx - r * nx
    &&& cx + r * nx <= i32::MAX
    &&& i32::MIN <= cz - r * nz
    &&& cz + r * nz <= i32::MAX
}

/// Resident chunks that the window keeps.
pub open spec fn carried<C>(resident: Map<ChunkKey, C>, window: Set<ChunkKey>) -> Map<ChunkKey, C> {
    resident.restrict(window)
}

/// Requests that the window needs: each chunk of the window that is not
/// resident, mapped to its own anchor corner.
pub open spec fn wanted<C>(resident: Map<ChunkKey, C>, window: Set<ChunkKey>) -> Map<ChunkKey, ChunkKey> {
    Map::new(|k: ChunkKey| window.contains(k) && !resident.contains_key(k), |k: ChunkKey| k)
}

/// The offset `a` of a corner `cx + a * n` is recovered by division.
pub proof fn lemma_offset_decode(cx: int, n: int, a: int)
    requires
        n > 0,
    ensures
        ((cx + a * n) - cx) % n == 0,
        ((cx + a * n) - cx) / n == a,
{
    assert((cx + a * n) - cx == a * n);
    lemma_mod_multiples_basic(a, n);
    lemma_mul_is_commutative(a, n);
    lemma_div_multiples_vanish(a, n);
}

/// A coordinate on the grid of corners is its base plus its offset.
pub proof fn lemma_offset_encode(cx: int, n: int, k: int)
    requires
        n > 0,
        (k - cx) % n == 0,
    ensures
        k == cx + ((k - cx) / n) * n,
{
    lemma_fundamental_div_mod(k - cx, n);
    lemma_mul_is_commutative(n, (k - cx) / n);
}

/// The corner lies at most one edge below the coordinate.
pub proof fn lemma_snap_bounds(p: int, n: int)
    requires
        n >= 1,
    ensures
        p - n < snap(p, n) <= p,
{
    lemma_fundamental_div_mod(p, n);
    lemma_mul_is_commutative(n, p / n);
}

/// Corner of the chunk of edge `n` containing coordinate `p`.
pub fn snap_coord(p: i32, n: u32) -> (r: i64)
    requires
        n >= 1,
    ensures
        r == snap(p as int, n as int),
{
    let n64 = n as i64;
    if p >= 0 {
        let q = p as i64 / n64;
        assert(q * n64 <= p) by (nonlinear_arith)
            requires q == (p as int) / (n64 as int), p >= 0, n64 >= 1;
        q * n64
    } else {
        let m = -(p as i64);
        let q = (m + n64 - 1) / n64;
        proof {
            let mi = m as int;
            let ni = n64 as int;
            let qi = q as int;
            let pi = p as int;
            lemma_fundamental_div_mod(mi + ni - 1, ni);
            lemma_fundamental_div_mod(pi, ni);
            let f = pi / ni;
            let r1 = (mi + ni - 1) % ni;
            let r2 = pi % ni;
            assert(qi == (mi + ni - 1) / ni);
            assert(f == -qi) by (nonlinear_arith)
                requires
                    mi == -pi, mi >= 1, ni >= 1,
                    mi + ni - 1 == ni * qi + r1,
                    0 <= r1 < ni,
                    pi == ni * f + r2,
                    0 <= r2 < ni;
            assert(f * ni == -(qi * ni)) by (nonlinear_arith)
                requires f == -qi;
            assert(qi * ni <= mi + ni) by (nonlinear_arith)
                requires
                    mi + ni - 1 == ni * qi + r1,
                    0 <= r1;
        }
        -(q * n64)
    }
}

/// The disk test, on offsets in `[-65535, 65535]`.
pub fn disk_test(i: i64, z: i64, r: i64) -> (b: bool)
    requires
        -0x1_0000 <= i <= 0x1_0000,
        -0x1_0000 <= z <= 0x1_0000,
        0 <= r <= 0x1_0000,
    ensures
        b == in_disk(i as int, z as int, r as int),
{
    assert(0 <= i * i <= 0x1_0000_0000) by (nonlinear_arith)
        requires -0x1_0000 <= i <= 0x1_0000;
    assert(0 <= z * z <= 0x1_0000_0000) by (nonlinear_arith)
        requires -0x1_0000 <= z <= 0x1_0000;
    assert(0 <= r * r <= 0x1_0000_0000) by (nonlinear_arith)
        requires 0 <= r <= 0x1_0000;
    i * i + z * z <= r * r + 1
}

/// The disk test does not change when either offset changes sign, and the
/// ring of offsets is carried onto itself by a quarter turn.
pub proof fn lemma_disk_symmetry(i: int, z: int, r: int)
    ensures
        in_disk(i, z, r) == in_disk(-i, z, r),
        in_disk(i, z, r) == in_disk(i, -z, r),
        in_ring(i, z, r) == in_ring(-z, i, r),
{
    assert((-i) * (-i) == i * i) by (nonlinear_arith);
    assert((-z) * (-z) == z * z) by (nonlinear_arith);
}

/// A planner pass never leaves a chunk both resident and requested.
pub proof fn lemma_plan_disjoint<C>(resident: Map<ChunkKey, C>, window: Set<ChunkKey>)
    ensures
        carried(resident, window).dom().disjoint(wanted(resident, window).dom()),
{
}

/// Planning a second time over the same window changes nothing: the kept
/// chunks and the requests come out the same.
pub proof fn lemma_plan_idempotent<C>(resident: Map<ChunkKey, C>, window: Set<ChunkKey>)
    ensures
        carried(carried(resident, window), window) == carried(resident, window),
        wanted(carried(resident, window), window) == wanted(resident, window),
{
    assert(carried(carried(resident, window), window) =~= carried(resident, window));
    assert(wanted(carried(resident, window), window) =~= wanted(resident, window));
}

/// The corner of the chunk at offset `(a, b)`, as a key.
pub open spec fn key_of_offset(cx: int, cz: int, nx: int, nz: int, a: int, b: int) -> ChunkKey {
    ((cx + a * nx) as i32, (cz + b * nz) as i32)
}

/// The chunk at offset `(a, b)` of the square belongs to the window exactly
/// when the offset passes the disk test.
pub proof fn lemma_window_offset(cx: int, cz: int, nx: int, nz: int, r: int, a: int, b: int)
    requires
        nx > 0,
        nz > 0,
        window_fits(cx, cz, nx, nz, r),
        -r <= a <= r,
        -r <= b <= r,
    ensures
        in_window(key_of_offset(cx, cz, nx, nz, a, b), cx, cz, nx, nz, r) == in_disk(a, b, r),
{
    assert(-(r * nx) <= a * nx <= r * nx) by (nonlinear_arith)
        requires -r <= a <= r, nx > 0;
    assert(-(r * nz) <= b * nz <= r * nz) by (nonlinear_arith)
        requires -r <= b <= r, nz > 0;
    lemma_offset_decode(cx, nx, a);
    lemma_offset_decode(cz, nz, b);
}

/// The window is symmetric: for offsets in the square, the chunk at
/// `(a, b)` is in it exactly when the chunks at `(-a, b)`, `(a, -b)` and at
/// the quarter turn `(-b, a)` are.
pub proof fn lemma_window_symmetric(cx: int, cz: int, nx: int, nz: int, r: int, a: int, b: int)
    requires
        nx > 0,
        nz > 0,
        window_fits(cx, cz, nx, nz, r),
        -r <= a <= r,
        -r <= b <= r,
    ensures
        in_window(key_of_offset(cx, cz, nx, nz, a, b), cx, cz, nx, nz, r)
            == in_window(key_of_offset(cx, cz, nx, nz, -a, b), cx, cz, nx, nz, r),
        in_window(key_of_offset(cx, cz, nx, nz, a, b), cx, cz, nx, nz, r)
            == in_window(key_of_offset(cx, cz, nx, nz, a, -b), cx, cz, nx, nz, r),
        in_window(key_of_offset(cx, cz, nx, nz, a, b), cx, cz, nx, nz, r)
            == in_window(key_of_offset(cx, cz, nx, nz, -b, a), cx, cz, nx, nz, r),
{
    lemma_window_offset(cx, cz, nx, nz, r, a, b);
    lemma_window_offset(cx, cz, nx, nz, r, -a, b);
    lemma_window_offset(cx, cz, nx, nz, r, a, -b);
    lemma_window_offset(cx, cz, nx, nz, r, -b, a);
    lemma_disk_symmetry(a, b, r);
    assert(in_disk(-b, a, r) == in_disk(a, b, r)) by (nonlinear_arith);
}

} // verus!
