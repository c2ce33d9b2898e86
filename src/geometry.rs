//! Byte layout of generated chunk geometry and the handling of device
//! readback results.
use vstd::prelude::*;

verus! {

/// Bytes per vertex: a position and a normal, each padded to four `f32`.
pub const VERTEX_STRIDE: u64 = 32;

/// Bytes per triangle index (`u32`).
pub const INDEX_STRIDE: u64 = 4;

/// Local work-group size of the terrain compute program.
pub const WORKGROUP_SIZE: u64 = 64;

/// Vertices in the heightfield grid of a chunk of `x` by `z` cells.
pub open spec fn vertex_count_spec(x: int, z: int) -> int {
    (x + 1) * (z + 1)
}

/// Triangle indices of a chunk of `x` by `z` cells: two triangles per cell.
pub open spec fn index_count_spec(x: int, z: int) -> int {
    x * z * 6
}

/// A chunk resolution whose cell counts are positive and whose vertex
/// buffer size fits a `u32`.
pub open spec fn chunk_size_ok(x: int, z: int) -> bool {
    &&& 1 <= x
    &&& 1 <= z
    &&& vertex_count_spec(x, z) * VERTEX_STRIDE <= u32::MAX
}

proof fn lemma_counts_bounded(x: int, z: int)
    requires
        chunk_size_ok(x, z),
    ensures
        vertex_count_spec(x, z) <= u32::MAX,
        index_count_spec(x, z) * INDEX_STRIDE <= u32::MAX,
        index_count_spec(x, z) <= vertex_count_spec(x, z) * VERTEX_STRIDE,
        x + 1 <= u32::MAX,
        z + 1 <= u32::MAX,
{
    assert(x + 1 <= (x + 1) * (z + 1) && z + 1 <= (x + 1) * (z + 1)) by (nonlinear_arith)
        requires 1 <= x, 1 <= z;
    assert(x * z * 24 <= (x + 1) * (z + 1) * 32) by (nonlinear_arith)
        requires 1 <= x, 1 <= z;
    assert(x * z * 6 <= x * z * 24) by (nonlinear_arith)
        requires 1 <= x, 1 <= z;
    assert((x + 1) * (z + 1) <= (x + 1) * (z + 1) * 32) by (nonlinear_arith)
        requires 1 <= x, 1 <= z;
}

/// Whether `x` by `z` cells is a resolution this library can lay out.
pub fn chunk_size_is_valid(x: u32, z: u32) -> (r: bool)
    ensures
        r == chunk_size_ok(x as int, z as int),
{
    if x == 0 || z == 0 {
        return false;
    }
    let a: u128 = x as u128 + 1;
    let b: u128 = z as u128 + 1;
    assert(a * b <= 0x1_0000_0000 * 0x1_0000_0000) by (nonlinear_arith)
        requires a <= 0x1_0000_0000, b <= 0x1_0000_0000, a >= 0, b >= 0;
    let n: u128 = a * b;
    assert(n * 32 <= 0x1_0000_0000 * 0x1_0000_0000 * 32) by (nonlinear_arith)
        requires n <= 0x1_0000_0000 * 0x1_0000_0000, n >= 0;
    n * (VERTEX_STRIDE as u128) <= u32::MAX as u128
}

/// Number of vertices of a chunk of `x` by `z` cells.
pub fn vertex_count(x: u32, z: u32) -> (r: u32)
    requires
        chunk_size_ok(x as int, z as int),
    ensures
        r == vertex_count_spec(x as int, z as int),
{
    proof { lemma_counts_bounded(x as int, z as int); }
    (x + 1) * (z + 1)
}

/// Number of triangle indices of a chunk of `x` by `z` cells.
pub fn index_count(x: u32, z: u32) -> (r: u32)
    requires
        chunk_size_ok(x as int, z as int),
    ensures
        r == index_count_spec(x as int, z as int),
{
    proof { lemma_counts_bounded(x as int, z as int); }
    x * z * 6
}

/// Size in bytes of the vertex buffer of a chunk.
pub fn vertex_buffer_size(x: u32, z: u32) -> (r: u64)
    requires
        chunk_size_ok(x as int, z as int),
    ensures
        r == vertex_count_spec(x as int, z as int) * VERTEX_STRIDE,
{
    proof { lemma_counts_bounded(x as int, z as int); }
    vertex_count(x, z) as u64 * VERTEX_STRIDE
}

/// Size in bytes of the index buffer of a chunk.
pub fn index_buffer_size(x: u32, z: u32) -> (r: u64)
    requires
        chunk_size_ok(x as int, z as int),
    ensures
        r == index_count_spec(x as int, z as int) * INDEX_STRIDE,
{
    proof { lemma_counts_bounded(x as int, z as int); }
    index_count(x, z) as u64 * INDEX_STRIDE
}

/// Work groups to dispatch so that one invocation covers each vertex:
/// the vertex count divided by the work-group size, rounded up.
pub fn workgroup_count(x: u32, z: u32) -> (r: u32)
    requires
        chunk_size_ok(x as int, z as int),
    ensures
        r as int * WORKGROUP_SIZE >= vertex_count_spec(x as int, z as int),
        (r as int - 1) * WORKGROUP_SIZE < vertex_count_spec(x as int, z as int),
{
    let n = vertex_count(x, z) as u64;
    let r = (n + WORKGROUP_SIZE - 1) / WORKGROUP_SIZE;
    assert(r * 64 >= n && (r - 1) * 64 < n) by (nonlinear_arith)
        requires r == (n + 63) / 64, n >= 0;
    r as u32
}

/// The failures that chunk streaming distinguishes.
#[derive(Debug, Clone, Copy, PartialEq, Eq, Structural)]
pub enum StreamError {
    /// A map-for-read of a device buffer did not complete, or did not
    /// yield the number of bytes that was asked for.
    ReadbackFailure,
    /// The device could not create a buffer or a pipeline.
    DeviceExhausted,
    /// A chunk key could not be parsed back into its coordinates.
    MalformedKey,
}

/// Vertex and index bytes of one generated chunk, as read back from the
/// device.
#[derive(Debug, Clone)]
pub struct RawBufferData {
    pub vertex_data: Vec<u8>,
    pub index_data: Vec<u8>,
}

impl RawBufferData {
    /// The buffers have exactly the sizes that a chunk of `x` by `z`
    /// cells is laid out in.
    pub open spec fn fits(&self, x: int, z: int) -> bool {
        &&& self.vertex_data@.len() == vertex_count_spec(x, z) * VERTEX_STRIDE
        &&& self.index_data@.len() == index_count_spec(x, z) * INDEX_STRIDE
    }

    pub open spec fn same_bytes(&self, other: &RawBufferData) -> bool {
        &&& self.vertex_data@ == other.vertex_data@
        &&& self.index_data@ == other.index_data@
    }

    /// A copy holding the same bytes.
    pub fn duplicate(&self) -> (r: RawBufferData)
        ensures
            r.same_bytes(self),
    {
        let v = self.vertex_data.clone();
        let i = self.index_data.clone();
        assert(v@ =~= self.vertex_data@);
        assert(i@ =~= self.index_data@);
        RawBufferData { vertex_data: v, index_data: i }
    }

    /// Whether the buffers have exactly the sizes of a chunk of `x` by `z`
    /// cells.
    pub fn fits_layout(&self, x: u32, z: u32) -> (b: bool)
        requires
            chunk_size_ok(x as int, z as int),
        ensures
            b == self.fits(x as int, z as int),
    {
        self.vertex_data.len() as u64 == vertex_buffer_size(x, z)
            && self.index_data.len() as u64 == index_buffer_size(x, z)
    }

    /// Number of vertices the vertex bytes hold.
    pub fn vertex_count(&self) -> (r: usize)
        ensures
            r == self.vertex_data@.len() / (VERTEX_STRIDE as nat),
    {
        self.vertex_data.len() / (VERTEX_STRIDE as usize)
    }

    /// Number of indices the index bytes hold.
    pub fn index_count(&self) -> (r: usize)
        ensures
            r == self.index_data@.len() / (INDEX_STRIDE as nat),
    {
        self.index_data.len() / (INDEX_STRIDE as usize)
    }
}

/// What the readback of a chunk of `x` by `z` cells yields: `None` for a
/// buffer whose mapping failed, else the bytes that were mapped.
pub open spec fn readback_outcome(
    x: int,
    z: int,
    vertex: Option<Seq<u8>>,
    index: Option<Seq<u8>>,
) -> Option<(Seq<u8>, Seq<u8>)> {
    match (vertex, index) {
        (Some(v), Some(i)) => if v.len() == vertex_count_spec(x, z) * VERTEX_STRIDE
            && i.len() == index_count_spec(x, z) * INDEX_STRIDE {
            Some((v, i))
        } else {
            None
        },
        _ => None,
    }
}

pub open spec fn opt_view(o: Option<Vec<u8>>) -> Option<Seq<u8>> {
    match o {
        Some(v) => Some(v@),
        None => None,
    }
}

/// Turns the two readbacks of a generated chunk into its raw data. The
/// chunk is accepted only when both mappings succeeded and each produced
/// exactly the bytes of the chunk's layout; otherwise the attempt fails
/// with `ReadbackFailure`.
pub fn chunk_from_readback(
    x: u32,
    z: u32,
    vertex: Option<Vec<u8>>,
    index: Option<Vec<u8>>,
) -> (r: Result<RawBufferData, StreamError>)
    requires
        chunk_size_ok(x as int, z as int),
    ensures
        match readback_outcome(x as int, z as int, opt_view(vertex), opt_view(index)) {
            Some((v, i)) => r matches Ok(d) && d.vertex_data@ == v && d.index_data@ == i,
            None => r == Err::<RawBufferData, StreamError>(StreamError::ReadbackFailure),
        },
        r matches Ok(d) ==> d.fits(x as int, z as int),
{
    match (vertex, index) {
        (Some(v), Some(i)) => {
            if v.len() as u64 == vertex_buffer_size(x, z) && i.len() as u64 == index_buffer_size(x, z) {
                Ok(RawBufferData { vertex_data: v, index_data: i })
            } else {
                Err(StreamError::ReadbackFailure)
            }
        },
        _ => Err(StreamError::ReadbackFailure),
    }
}

/// Bytes of the scalar that a one-shot query writes (`f32`).
pub const QUERY_RESULT_SIZE: usize = 4;

/// Turns the readback of a query's result buffer into the scalar's bytes,
/// in device (little-endian) order. A failed mapping, or one of another
/// size, is a `ReadbackFailure`: no stale or zeroed value is returned.
pub fn query_from_readback(mapped: Option<Vec<u8>>) -> (r: Result<[u8; 4], StreamError>)
    ensures
        match mapped {
            Some(b) => if b@.len() == QUERY_RESULT_SIZE {
                r matches Ok(a) && a@ == b@
            } else {
                r == Err::<[u8; 4], StreamError>(StreamError::ReadbackFailure)
            },
            None => r == Err::<[u8; 4], StreamError>(StreamError::ReadbackFailure),
        },
{
    match mapped {
        Some(b) => {
            if b.len() == QUERY_RESULT_SIZE {
                let a: [u8; 4] = [b[0], b[1], b[2], b[3]];
                assert(a@ =~= b@);
                Ok(a)
            } else {
                Err(StreamError::ReadbackFailure)
            }
        },
        None => Err(StreamError::ReadbackFailure),
    }
}

} // verus!
