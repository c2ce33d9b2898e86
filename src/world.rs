//! The consumer's view of the streamed terrain: resident chunks, pending
//! requests, the staging of freshly generated data, and the planner that
//! recomputes the window each tick.
use vstd::prelude::*;
use std::collections::BTreeMap;
use crate::geometry::{
    RawBufferData, VERTEX_STRIDE, INDEX_STRIDE, chunk_size_ok, vertex_count_spec, index_count_spec,
    vertex_count, index_count,
};
use crate::maps::{key_list, lemma_take_step};
use crate::window::{
    ChunkKey, snap, in_disk, in_window, window_set, key_at, window_fits, carried, wanted,
    lemma_offset_decode, lemma_offset_encode, lemma_snap_bounds, snap_coord, disk_test,
};

verus! {

broadcast use vstd::std_specs::btree::group_btree_axioms;

/// Radius, in chunks, of the window kept around the viewer.
pub const DEFAULT_RADIUS: u16 = 10;

/// Device-resident geometry of a chunk; `B` is the handle type of a
/// device buffer.
pub struct Mesh<B> {
    pub vertex_buffer: B,
    pub index_buffer: B,
    pub num_vertices: u32,
    pub num_elements: u32,
}

/// A resident chunk: its device geometry and the host copy of its bytes.
pub struct Chunk<B> {
    pub mesh: Mesh<B>,
    pub data: RawBufferData,
}

/// Keys of the window whose offset `(a, b)`, shifted by `r` to start at
/// zero, comes before `(i, j)` in row order.
pub open spec fn window_prefix(cx: int, cz: int, nx: int, nz: int, r: int, i: int, j: int) -> Set<ChunkKey> {
    Set::new(|k: ChunkKey| in_window(k, cx, cz, nx, nz, r) && {
        let a = (k.0 - cx) / nx + r;
        let b = (k.1 - cz) / nz + r;
        a < i || (a == i && b < j)
    })
}

proof fn lemma_prefix_step(cx: int, cz: int, nx: int, nz: int, r: int, i: int, j: int)
    requires
        nx > 0,
        nz > 0,
        r >= 0,
        0 <= i < 2 * r + 1,
        0 <= j < 2 * r + 1,
    ensures
        forall|k: ChunkKey| #[trigger] window_prefix(cx, cz, nx, nz, r, i, j + 1).contains(k) <==> (
            window_prefix(cx, cz, nx, nz, r, i, j).contains(k) || (in_disk(i - r, j - r, r)
                && k.0 == key_at(cx, cz, nx, nz, i - r, j - r).0
                && k.1 == key_at(cx, cz, nx, nz, i - r, j - r).1)),
{
    let k0 = key_at(cx, cz, nx, nz, i - r, j - r);
    lemma_offset_decode(cx, nx, i - r);
    lemma_offset_decode(cz, nz, j - r);
    assert forall|k: ChunkKey| #[trigger] window_prefix(cx, cz, nx, nz, r, i, j + 1).contains(k) <==> (
        window_prefix(cx, cz, nx, nz, r, i, j).contains(k) || (in_disk(i - r, j - r, r)
            && k.0 == k0.0 && k.1 == k0.1)) by {
        if in_window(k, cx, cz, nx, nz, r) {
            let a = (k.0 - cx) / nx;
            let b = (k.1 - cz) / nz;
            lemma_offset_encode(cx, nx, k.0 as int);
            lemma_offset_encode(cz, nz, k.1 as int);
            if a == i - r && b == j - r {
                assert(k.0 == k0.0 && k.1 == k0.1);
            }
            if k.0 == k0.0 && k.1 == k0.1 {
                assert(a == i - r && b == j - r);
            }
        }
    }
}

proof fn lemma_prefix_row(cx: int, cz: int, nx: int, nz: int, r: int, i: int)
    requires
        nx > 0,
        nz > 0,
        r >= 0,
    ensures
        window_prefix(cx, cz, nx, nz, r, i + 1, 0) == window_prefix(cx, cz, nx, nz, r, i, 2 * r + 1),
        window_prefix(cx, cz, nx, nz, r, 0, 0) == Set::<ChunkKey>::empty(),
        window_prefix(cx, cz, nx, nz, r, 2 * r + 1, 0) == window_set(cx, cz, nx, nz, r),
{
    assert(window_prefix(cx, cz, nx, nz, r, i + 1, 0) =~= window_prefix(cx, cz, nx, nz, r, i, 2 * r + 1));
    assert(window_prefix(cx, cz, nx, nz, r, 0, 0) =~= Set::<ChunkKey>::empty());
    assert(window_prefix(cx, cz, nx, nz, r, 2 * r + 1, 0) =~= window_set(cx, cz, nx, nz, r));
}

/// One uploaded chunk: its key, its bytes, and the vertex and index
/// buffers the bytes were uploaded to.
pub type Uploaded<B> = (ChunkKey, RawBufferData, B, B);

/// The keys of a batch of uploaded chunks.
pub open spec fn batch_keys<B>(batch: Seq<Uploaded<B>>) -> Set<ChunkKey> {
    Set::new(|k: ChunkKey| exists|i: int| 0 <= i < batch.len() && (#[trigger] batch[i]).0 == k)
}

/// Resident chunks after ingesting a batch in order, each entry replacing
/// any chunk under its key; `nv` and `ne` are the vertex and index counts
/// of the layout.
pub open spec fn with_batch<B>(
    resident: Map<ChunkKey, Chunk<B>>,
    batch: Seq<Uploaded<B>>,
    nv: u32,
    ne: u32,
) -> Map<ChunkKey, Chunk<B>>
    decreases batch.len(),
{
    if batch.len() == 0 {
        resident
    } else {
        let e = batch.last();
        with_batch(resident, batch.drop_last(), nv, ne).insert(
            e.0,
            Chunk {
                mesh: Mesh { vertex_buffer: e.2, index_buffer: e.3, num_vertices: nv, num_elements: ne },
                data: e.1,
            },
        )
    }
}

/// Entries of `drained` whose bytes fit a chunk of `x` by `z` cells.
pub open spec fn fitting(drained: Map<ChunkKey, RawBufferData>, x: int, z: int) -> Map<ChunkKey, RawBufferData> {
    drained.restrict(Set::new(|k: ChunkKey| drained.contains_key(k) && drained[k].fits(x, z)))
}

/// The streamed terrain as the render loop sees it.
pub struct World<B> {
    /// Resident chunks, by corner.
    pub chunks: BTreeMap<ChunkKey, Chunk<B>>,
    /// Chunks wanted but not yet generated, each mapped to its anchor corner.
    pub requested_chunks: BTreeMap<ChunkKey, ChunkKey>,
    /// Generated chunk data drained from the producer, awaiting ingestion.
    pub raw_buffer_data: BTreeMap<ChunkKey, RawBufferData>,
    /// Cells along x of each chunk.
    pub chunk_size_x: u32,
    /// Cells along z of each chunk.
    pub chunk_size_z: u32,
    /// Radius of the window, in chunks.
    pub radius: u16,
}

impl<B> World<B> {
    pub open spec fn size_x(&self) -> int {
        self.chunk_size_x as int
    }

    pub open spec fn size_z(&self) -> int {
        self.chunk_size_z as int
    }

    pub open spec fn ring_radius(&self) -> int {
        self.radius as int
    }

    /// A resident chunk laid out for this world's chunk size.
    pub open spec fn chunk_ok(&self, c: Chunk<B>) -> bool {
        &&& c.mesh.num_vertices == vertex_count_spec(self.size_x(), self.size_z())
        &&& c.mesh.num_elements == index_count_spec(self.size_x(), self.size_z())
        &&& c.data.fits(self.size_x(), self.size_z())
    }

    pub open spec fn wf(&self) -> bool {
        &&& chunk_size_ok(self.size_x(), self.size_z())
        &&& 0 <= self.ring_radius() <= u16::MAX
        &&& forall|k: ChunkKey| #[trigger] self.requested_chunks@.contains_key(k)
            ==> self.requested_chunks@[k] == k && !self.chunks@.contains_key(k)
        &&& forall|k: ChunkKey| #[trigger] self.chunks@.contains_key(k)
            ==> self.chunk_ok(self.chunks@[k])
        &&& forall|k: ChunkKey| #[trigger] self.raw_buffer_data@.contains_key(k)
            ==> self.raw_buffer_data@[k].fits(self.size_x(), self.size_z())
    }

    /// The window around a viewer whose position rounds down to `(px, pz)`.
    pub open spec fn window(&self, px: int, pz: int) -> Set<ChunkKey> {
        window_set(
            snap(px, self.size_x()),
            snap(pz, self.size_z()),
            self.size_x(),
            self.size_z(),
            self.ring_radius(),
        )
    }

    /// The corners of the window around `(px, pz)` all fit an `i32`.
    pub open spec fn fits_at(&self, px: int, pz: int) -> bool {
        window_fits(
            snap(px, self.size_x()),
            snap(pz, self.size_z()),
            self.size_x(),
            self.size_z(),
            self.ring_radius(),
        )
    }

    /// An empty world for chunks of `chunk_size_x` by `chunk_size_z` cells,
    /// keeping the default radius.
    pub fn new(chunk_size_x: u32, chunk_size_z: u32) -> (w: World<B>)
        requires
            chunk_size_ok(chunk_size_x as int, chunk_size_z as int),
        ensures
            w.wf(),
            w.size_x() == chunk_size_x,
            w.size_z() == chunk_size_z,
            w.ring_radius() == DEFAULT_RADIUS,
            w.chunks@.is_empty(),
            w.requested_chunks@.is_empty(),
            w.raw_buffer_data@.is_empty(),
    {
        World::with_radius(chunk_size_x, chunk_size_z, DEFAULT_RADIUS)
    }

    /// An empty world with a window of radius `radius` chunks.
    pub fn with_radius(chunk_size_x: u32, chunk_size_z: u32, radius: u16) -> (w: World<B>)
        requires
            chunk_size_ok(chunk_size_x as int, chunk_size_z as int),
        ensures
            w.wf(),
            w.size_x() == chunk_size_x,
            w.size_z() == chunk_size_z,
            w.ring_radius() == radius,
            w.chunks@.is_empty(),
            w.requested_chunks@.is_empty(),
            w.raw_buffer_data@.is_empty(),
    {
        World {
            chunks: BTreeMap::new(),
            requested_chunks: BTreeMap::new(),
            raw_buffer_data: BTreeMap::new(),
            chunk_size_x,
            chunk_size_z,
            radius,
        }
    }

    pub fn chunk_size_x(&self) -> (r: u32)
        ensures
            r == self.size_x(),
    {
        self.chunk_size_x
    }

    pub fn chunk_size_z(&self) -> (r: u32)
        ensures
            r == self.size_z(),
    {
        self.chunk_size_z
    }

    pub fn radius(&self) -> (r: u16)
        ensures
            r == self.ring_radius(),
    {
        self.radius
    }

    /// Whether the window around `(px, pz)` has corners that fit an `i32`.
    pub fn window_fits_at(&self, px: i32, pz: i32) -> (b: bool)
        requires
            self.wf(),
        ensures
            b == self.fits_at(px as int, pz as int),
    {
        let cx = snap_coord(px, self.chunk_size_x);
        let cz = snap_coord(pz, self.chunk_size_z);
        let r = self.radius as i64;
        let nx = self.chunk_size_x as i64;
        let nz = self.chunk_size_z as i64;
        assert(0 <= r * nx <= 0x1_0000 * 0x1_0000_0000) by (nonlinear_arith)
            requires 0 <= r <= 0x1_0000, 0 <= nx <= 0x1_0000_0000;
        assert(0 <= r * nz <= 0x1_0000 * 0x1_0000_0000) by (nonlinear_arith)
            requires 0 <= r <= 0x1_0000, 0 <= nz <= 0x1_0000_0000;
        let rx = r * nx;
        let rz = r * nz;
        assert(cx - rx > i64::MIN && cx + rx < i64::MAX && cz - rz > i64::MIN && cz + rz < i64::MAX) by {
            lemma_snap_bounds(px as int, self.chunk_size_x as int);
            lemma_snap_bounds(pz as int, self.chunk_size_z as int);
        }
        cx - rx >= i32::MIN as i64 && cx + rx <= i32::MAX as i64 && cz - rz >= i32::MIN as i64
            && cz + rz <= i32::MAX as i64
    }

    /// Recomputes the window around a viewer whose position rounds down to
    /// `(px, pz)`. Resident chunks inside the window are kept and all
    /// others dropped; every chunk of the window that is not resident is
    /// requested, and no other request remains.
    pub fn preflight_chunks(&mut self, px: i32, pz: i32)
        requires
            old(self).wf(),
            old(self).fits_at(px as int, pz as int),
        ensures
            final(self).wf(),
            final(self).chunk_size_x == old(self).chunk_size_x,
            final(self).chunk_size_z == old(self).chunk_size_z,
            final(self).radius == old(self).radius,
            final(self).chunks@ == carried(old(self).chunks@, old(self).window(px as int, pz as int)),
            final(self).requested_chunks@ == wanted(old(self).chunks@, old(self).window(px as int, pz as int)),
            final(self).raw_buffer_data@ == old(self).raw_buffer_data@,
    {
        let ghost start = self.chunks@;
        let nx = self.chunk_size_x as i64;
        let nz = self.chunk_size_z as i64;
        let r = self.radius as i64;
        let cx = snap_coord(px, self.chunk_size_x);
        let cz = snap_coord(pz, self.chunk_size_z);
        let ghost (gcx, gcz, gnx, gnz, gr) = (cx as int, cz as int, nx as int, nz as int, r as int);
        let n: i64 = 2 * r + 1;
        let mut kept: BTreeMap<ChunkKey, Chunk<B>> = BTreeMap::new();
        let mut requests: BTreeMap<ChunkKey, ChunkKey> = BTreeMap::new();
        proof {
            lemma_prefix_row(gcx, gcz, gnx, gnz, gr, 0);
            assert(start.remove_keys(Set::empty()) =~= start);
            assert(carried(start, Set::empty()) =~= Map::empty());
            assert(wanted(start, Set::<ChunkKey>::empty()) =~= Map::empty());
        }
        let mut i: i64 = 0;
        while i < n
            invariant
                0 <= i <= n,
                n == 2 * r + 1,
                0 <= r <= u16::MAX,
                1 <= nx <= u32::MAX,
                1 <= nz <= u32::MAX,
                old(self).fits_at(px as int, pz as int),
                gcx == snap(px as int, nx as int),
                gcz == snap(pz as int, nz as int),
                (gcx, gcz, gnx, gnz, gr) == (cx as int, cz as int, nx as int, nz as int, r as int),
                nx == self.chunk_size_x,
                nz == self.chunk_size_z,
                r == self.radius,
                self.chunk_size_x == old(self).chunk_size_x,
                self.chunk_size_z == old(self).chunk_size_z,
                self.radius == old(self).radius,
                self.raw_buffer_data@ == old(self).raw_buffer_data@,
                self.requested_chunks@ == old(self).requested_chunks@,
                start == old(self).chunks@,
                self.chunks@ == start.remove_keys(window_prefix(gcx, gcz, gnx, gnz, gr, i as int, 0)),
                kept@ == carried(start, window_prefix(gcx, gcz, gnx, gnz, gr, i as int, 0)),
                requests@ == wanted(start, window_prefix(gcx, gcz, gnx, gnz, gr, i as int, 0)),
            decreases n - i,
        {
            let mut j: i64 = 0;
            while j < n
                invariant
                    0 <= i < n,
                    0 <= j <= n,
                    n == 2 * r + 1,
                    0 <= r <= u16::MAX,
                    1 <= nx <= u32::MAX,
                    1 <= nz <= u32::MAX,
                    old(self).fits_at(px as int, pz as int),
                    gcx == snap(px as int, nx as int),
                    gcz == snap(pz as int, nz as int),
                    (gcx, gcz, gnx, gnz, gr) == (cx as int, cz as int, nx as int, nz as int, r as int),
                    nx == self.chunk_size_x,
                    nz == self.chunk_size_z,
                    r == self.radius,
                    self.chunk_size_x == old(self).chunk_size_x,
                    self.chunk_size_z == old(self).chunk_size_z,
                    self.radius == old(self).radius,
                    self.raw_buffer_data@ == old(self).raw_buffer_data@,
                    self.requested_chunks@ == old(self).requested_chunks@,
                    start == old(self).chunks@,
                    self.chunks@ == start.remove_keys(window_prefix(gcx, gcz, gnx, gnz, gr, i as int, j as int)),
                    kept@ == carried(start, window_prefix(gcx, gcz, gnx, gnz, gr, i as int, j as int)),
                    requests@ == wanted(start, window_prefix(gcx, gcz, gnx, gnz, gr, i as int, j as int)),
                decreases n - j,
            {
                let a = i - r;
                let b = j - r;
                assert(-(r * nx) <= a * nx <= r * nx) by (nonlinear_arith)
                    requires -r <= a <= r, nx >= 1;
                assert(-(r * nz) <= b * nz <= r * nz) by (nonlinear_arith)
                    requires -r <= b <= r, nz >= 1;
                assert(0 <= r * nx <= 0x1_0000 * 0x1_0000_0000) by (nonlinear_arith)
                    requires 0 <= r <= 0x1_0000, 0 <= nx <= 0x1_0000_0000;
                assert(0 <= r * nz <= 0x1_0000 * 0x1_0000_0000) by (nonlinear_arith)
                    requires 0 <= r <= 0x1_0000, 0 <= nz <= 0x1_0000_0000;
                assert(window_fits(gcx, gcz, gnx, gnz, gr));
                assert(i32::MIN <= cx + a * nx <= i32::MAX);
                assert(i32::MIN <= cz + b * nz <= i32::MAX);
                let ax = a * nx;
                let bz = b * nz;
                let key: ChunkKey = ((cx + ax) as i32, (cz + bz) as i32);
                let ghost pre = window_prefix(gcx, gcz, gnx, gnz, gr, i as int, j as int);
                let ghost post = window_prefix(gcx, gcz, gnx, gnz, gr, i as int, j + 1);
                let ghost chunks_before = self.chunks@;
                proof {
                    lemma_prefix_step(gcx, gcz, gnx, gnz, gr, i as int, j as int);
                    lemma_offset_decode(gcx, gnx, a as int);
                    lemma_offset_decode(gcz, gnz, b as int);
                    assert(key.0 as int == gcx + (a as int) * gnx);
                    assert(key.1 as int == gcz + (b as int) * gnz);
                }
                if disk_test(a, b, r) {
                    assert(post =~= pre.insert(key));
                    assert(!pre.contains(key));
                    match self.chunks.remove(&key) {
                        Some(c) => {
                            kept.insert(key, c);
                            assert(requests@ =~= wanted(start, post));
                        },
                        None => {
                            requests.insert(key, key);
                            assert(requests@ =~= wanted(start, post));
                        },
                    }
                    assert(self.chunks@ =~= start.remove_keys(post));
                    assert(kept@ =~= carried(start, post));
                } else {
                    assert(post =~= pre);
                }
                j = j + 1;
            }
            proof {
                lemma_prefix_row(gcx, gcz, gnx, gnz, gr, i as int);
            }
            i = i + 1;
        }
        proof {
            lemma_prefix_row(gcx, gcz, gnx, gnz, gr, 0);
        }
        self.chunks = kept;
        self.requested_chunks = requests;
    }

    /// Stages chunk data drained from the producer, merging it over what is
    /// already staged. Data whose sizes do not match the chunk layout cannot
    /// be ingested and is dropped.
    pub fn stage_chunks(&mut self, drained: BTreeMap<ChunkKey, RawBufferData>)
        requires
            old(self).wf(),
        ensures
            final(self).wf(),
            final(self).raw_buffer_data@ == old(self).raw_buffer_data@.union_prefer_right(
                fitting(drained@, old(self).size_x(), old(self).size_z()),
            ),
            final(self).chunks@ == old(self).chunks@,
            final(self).requested_chunks@ == old(self).requested_chunks@,
            final(self).chunk_size_x == old(self).chunk_size_x,
            final(self).chunk_size_z == old(self).chunk_size_z,
            final(self).radius == old(self).radius,
    {
        let keys = key_list(&drained);
        let ghost all = drained@;
        let ghost good = fitting(all, self.size_x(), self.size_z());
        let mut rest = drained;
        let mut idx: usize = 0;
        while idx < keys.len()
            invariant
                0 <= idx <= keys@.len(),
                keys@.to_set() == all.dom(),
                keys@.no_duplicates(),
                good == fitting(all, self.size_x(), self.size_z()),
                self.wf(),
                self.chunks@ == old(self).chunks@,
                self.requested_chunks@ == old(self).requested_chunks@,
                self.chunk_size_x == old(self).chunk_size_x,
                self.chunk_size_z == old(self).chunk_size_z,
                self.radius == old(self).radius,
                rest@ == all.remove_keys(keys@.take(idx as int).to_set()),
                self.raw_buffer_data@ == old(self).raw_buffer_data@.union_prefer_right(
                    good.restrict(keys@.take(idx as int).to_set()),
                ),
            decreases keys@.len() - idx,
        {
            let k = keys[idx];
            let ghost done = keys@.take(idx as int).to_set();
            let ghost next = keys@.take(idx as int + 1).to_set();
            proof {
                lemma_take_step(keys@, idx as int);
            }
            match rest.remove(&k) {
                Some(d) => {
                    if d.fits_layout(self.chunk_size_x, self.chunk_size_z) {
                        self.raw_buffer_data.insert(k, d);
                    }
                },
                None => {},
            }
            assert(rest@ =~= all.remove_keys(next));
            assert(self.raw_buffer_data@ =~= old(self).raw_buffer_data@.union_prefer_right(
                good.restrict(next),
            ));
            idx = idx + 1;
        }
        assert(keys@.take(keys@.len() as int) =~= keys@);
        assert(good.restrict(keys@.to_set()) =~= good);
    }

    /// Hands out everything staged, leaving the staging map empty.
    pub fn take_staged(&mut self) -> (staged: BTreeMap<ChunkKey, RawBufferData>)
        requires
            old(self).wf(),
        ensures
            final(self).wf(),
            staged@ == old(self).raw_buffer_data@,
            final(self).raw_buffer_data@.is_empty(),
            final(self).chunks@ == old(self).chunks@,
            final(self).requested_chunks@ == old(self).requested_chunks@,
            final(self).chunk_size_x == old(self).chunk_size_x,
            final(self).chunk_size_z == old(self).chunk_size_z,
            final(self).radius == old(self).radius,
            forall|k: ChunkKey| #[trigger] staged@.contains_key(k)
                ==> staged@[k].fits(old(self).size_x(), old(self).size_z()),
    {
        let mut staged: BTreeMap<ChunkKey, RawBufferData> = BTreeMap::new();
        core::mem::swap(&mut staged, &mut self.raw_buffer_data);
        staged
    }

    /// Makes a generated chunk resident, given the device buffers its bytes
    /// were uploaded to, and drops the request for it.
    pub fn ingest_chunk_data(&mut self, key: ChunkKey, data: RawBufferData, vertex_buffer: B, index_buffer: B)
        requires
            old(self).wf(),
            data.fits(old(self).size_x(), old(self).size_z()),
        ensures
            final(self).wf(),
            final(self).chunks@ == old(self).chunks@.insert(key, Chunk {
                mesh: Mesh {
                    vertex_buffer,
                    index_buffer,
                    num_vertices: vertex_count_spec(old(self).size_x(), old(self).size_z()) as u32,
                    num_elements: index_count_spec(old(self).size_x(), old(self).size_z()) as u32,
                },
                data,
            }),
            final(self).requested_chunks@ == old(self).requested_chunks@.remove(key),
            final(self).raw_buffer_data@ == old(self).raw_buffer_data@,
            final(self).chunk_size_x == old(self).chunk_size_x,
            final(self).chunk_size_z == old(self).chunk_size_z,
            final(self).radius == old(self).radius,
    {
        let num_vertices = vertex_count(self.chunk_size_x, self.chunk_size_z);
        let num_elements = index_count(self.chunk_size_x, self.chunk_size_z);
        let chunk = Chunk {
            mesh: Mesh { vertex_buffer, index_buffer, num_vertices, num_elements },
            data,
        };
        self.chunks.insert(key, chunk);
        self.requested_chunks.remove(&key);
    }

    /// Ingests a whole batch of uploaded chunks: each becomes resident
    /// (in batch order, a later entry replacing an earlier one under the
    /// same key), the requests for their keys are dropped, and the staging
    /// map is left empty. An empty batch changes no chunk and no request.
    pub fn ingest_batch(&mut self, batch: Vec<Uploaded<B>>)
        requires
            old(self).wf(),
            forall|i: int| 0 <= i < batch@.len()
                ==> (#[trigger] batch@[i]).1.fits(old(self).size_x(), old(self).size_z()),
        ensures
            final(self).wf(),
            final(self).chunks@ == with_batch(
                old(self).chunks@,
                batch@,
                vertex_count_spec(old(self).size_x(), old(self).size_z()) as u32,
                index_count_spec(old(self).size_x(), old(self).size_z()) as u32,
            ),
            final(self).requested_chunks@ == old(self).requested_chunks@.remove_keys(batch_keys(batch@)),
            final(self).raw_buffer_data@.is_empty(),
            final(self).chunk_size_x == old(self).chunk_size_x,
            final(self).chunk_size_z == old(self).chunk_size_z,
            final(self).radius == old(self).radius,
    {
        let ghost all = batch@;
        let ghost nv = vertex_count_spec(self.size_x(), self.size_z()) as u32;
        let ghost ne = index_count_spec(self.size_x(), self.size_z()) as u32;
        let mut rest = batch;
        let mut i: usize = 0;
        let n = rest.len();
        proof {
            assert(all.take(0) =~= Seq::<Uploaded<B>>::empty());
            assert(batch_keys(all.take(0)) =~= Set::<ChunkKey>::empty());
            assert(old(self).requested_chunks@.remove_keys(Set::empty()) =~= old(self).requested_chunks@);
            assert(all.subrange(0, n as int) =~= all);
        }
        while i < n
            invariant
                0 <= i <= n,
                n == all.len(),
                rest@ == all.subrange(i as int, n as int),
                forall|j: int| 0 <= j < all.len()
                    ==> (#[trigger] all[j]).1.fits(old(self).size_x(), old(self).size_z()),
                nv == vertex_count_spec(old(self).size_x(), old(self).size_z()) as u32,
                ne == index_count_spec(old(self).size_x(), old(self).size_z()) as u32,
                self.wf(),
                self.chunk_size_x == old(self).chunk_size_x,
                self.chunk_size_z == old(self).chunk_size_z,
                self.radius == old(self).radius,
                self.chunks@ == with_batch(old(self).chunks@, all.take(i as int), nv, ne),
                self.requested_chunks@ == old(self).requested_chunks@.remove_keys(batch_keys(all.take(i as int))),
            decreases n - i,
        {
            let e = rest.remove(0);
            assert(e == all[i as int]);
            let (key, data, vertex_buffer, index_buffer) = e;
            let ghost req_before = self.requested_chunks@;
            self.ingest_chunk_data(key, data, vertex_buffer, index_buffer);
            proof {
                let t = all.take(i + 1);
                assert(t.drop_last() =~= all.take(i as int));
                assert(t.last() == all[i as int]);
                assert(batch_keys(t) =~= batch_keys(all.take(i as int)).insert(key)) by {
                    assert(t[i as int] == all[i as int]);
                    assert forall|k: ChunkKey| batch_keys(all.take(i as int)).contains(k) implies batch_keys(t).contains(k) by {
                        let j = choose|j: int| 0 <= j < i && (#[trigger] all.take(i as int)[j]).0 == k;
                        assert(t[j] == all.take(i as int)[j]);
                    }
                    assert forall|k: ChunkKey| batch_keys(t).contains(k) && k != key implies batch_keys(all.take(i as int)).contains(k) by {
                        let j = choose|j: int| 0 <= j < i + 1 && (#[trigger] t[j]).0 == k;
                        assert(j != i);
                        assert(all.take(i as int)[j] == t[j]);
                    }
                }
                assert(self.requested_chunks@ =~= old(self).requested_chunks@.remove_keys(batch_keys(t)));
                assert(rest@ =~= all.subrange(i + 1, n as int));
            }
            i = i + 1;
        }
        assert(all.take(n as int) =~= all);
        self.raw_buffer_data.clear();
    }

    /// The resident chunk at `key`, if any.
    pub fn get_or_none(&self, key: &ChunkKey) -> (r: Option<&Chunk<B>>)
        ensures
            match r {
                Some(c) => self.chunks@.contains_key(*key) && *c == self.chunks@[*key],
                None => !self.chunks@.contains_key(*key),
            },
    {
        self.chunks.get(key)
    }
}

/// Two viewer positions that round down to the same chunk corner give the
/// same plan: the same chunks are kept and the same chunks requested.
pub proof fn lemma_same_corner_same_plan<B>(w: World<B>, p1x: int, p1z: int, p2x: int, p2z: int)
    requires
        w.wf(),
        snap(p1x, w.size_x()) == snap(p2x, w.size_x()),
        snap(p1z, w.size_z()) == snap(p2z, w.size_z()),
    ensures
        w.window(p1x, p1z) == w.window(p2x, p2z),
        carried(w.chunks@, w.window(p1x, p1z)) == carried(w.chunks@, w.window(p2x, p2z)),
        wanted(w.chunks@, w.window(p1x, p1z)) == wanted(w.chunks@, w.window(p2x, p2z)),
{
}

/// Every resident chunk has `(x + 1)(z + 1)` vertices and `6xz` indices
/// for chunks of `x` by `z` cells, in its mesh and in its bytes.
pub proof fn lemma_resident_counts<B>(w: World<B>, k: ChunkKey)
    requires
        w.wf(),
        w.chunks@.contains_key(k),
    ensures
        w.chunks@[k].mesh.num_vertices == vertex_count_spec(w.size_x(), w.size_z()),
        w.chunks@[k].mesh.num_elements == index_count_spec(w.size_x(), w.size_z()),
        w.chunks@[k].data.vertex_data@.len() / (VERTEX_STRIDE as nat) == vertex_count_spec(w.size_x(), w.size_z()),
        w.chunks@[k].data.index_data@.len() / (INDEX_STRIDE as nat) == index_count_spec(w.size_x(), w.size_z()),
{
    let v = vertex_count_spec(w.size_x(), w.size_z());
    let i = index_count_spec(w.size_x(), w.size_z());
    assert((v * 32) / 32 == v) by (nonlinear_arith);
    assert((i * 4) / 4 == i) by (nonlinear_arith);
}

} // verus!
