//! Chunk streaming for procedurally generated heightfield terrain: the
//! spatial window that decides which chunks should be resident, the
//! request / generation / ingestion bookkeeping, the byte layout of chunk
//! geometry, and the textual chunk key format.
use vstd::prelude::*;

pub mod compute;
pub mod geometry;
pub mod key;
pub mod maps;
pub mod utils;
pub mod window;
pub mod world;

pub use compute::ComputeWorld;
pub use geometry::{RawBufferData, StreamError};
pub use key::{key_of, parse_key};
pub use utils::Utils;
pub use window::ChunkKey;
pub use world::{Chunk, Mesh, Uploaded, World};

verus! {

} // verus!
