use std::collections::BTreeMap;

use terrain_stream::geometry::{chunk_from_readback, query_from_readback};
use terrain_stream::maps::merge_into;
use terrain_stream::{ChunkKey, ComputeWorld, RawBufferData, StreamError, World};

fn chunk_bytes(fill: u8) -> RawBufferData {
    RawBufferData { vertex_data: vec![fill; 34848], index_data: vec![fill; 24576] }
}

#[test]
fn staged_chunk_becomes_resident() {
    let mut w: World<()> = World::new(32, 32);
    w.preflight_chunks(0, 0);
    assert!(w.requested_chunks.contains_key(&(0, 0)));
    assert!(!w.chunks.contains_key(&(0, 0)));
    let mut drained = BTreeMap::new();
    drained.insert((0, 0), chunk_bytes(7));
    w.stage_chunks(drained);
    let staged = w.take_staged();
    assert!(w.raw_buffer_data.is_empty());
    w.ingest_batch(staged.into_iter().map(|(k, d)| (k, d, (), ())).collect());
    assert!(w.chunks.contains_key(&(0, 0)));
    assert!(!w.requested_chunks.contains_key(&(0, 0)));
    w.preflight_chunks(0, 0);
    assert!(w.chunks.contains_key(&(0, 0)));
    assert!(!w.requested_chunks.contains_key(&(0, 0)));
}

#[test]
fn staging_drops_misshapen_data() {
    let mut w: World<()> = World::new(32, 32);
    let mut drained = BTreeMap::new();
    drained.insert((0, 0), chunk_bytes(1));
    drained.insert((32, 0), RawBufferData { vertex_data: vec![0; 10], index_data: vec![0; 24576] });
    w.stage_chunks(drained);
    assert!(w.raw_buffer_data.contains_key(&(0, 0)));
    assert!(!w.raw_buffer_data.contains_key(&(32, 0)));
}

#[test]
fn readback_then_ingest_gives_layout_counts() {
    let data = chunk_from_readback(32, 32, Some(vec![3u8; 34848]), Some(vec![4u8; 24576])).unwrap();
    assert_eq!(data.vertex_count(), 33 * 33);
    assert_eq!(data.index_count(), 32 * 32 * 6);
    let mut w: World<u8> = World::new(32, 32);
    w.ingest_chunk_data((32, -96), data, 1, 2);
    let c = w.get_or_none(&(32, -96)).unwrap();
    assert_eq!(c.mesh.num_vertices, 1089);
    assert_eq!(c.mesh.num_elements, 6144);
    assert_eq!(c.data.vertex_count(), 1089);
    assert_eq!(c.data.index_count(), 6144);
    assert_eq!(c.data.vertex_data[0], 3);
    assert_eq!(c.mesh.index_buffer, 2);
    assert!(w.get_or_none(&(0, 0)).is_none());
}

#[test]
fn readback_failures() {
    assert_eq!(chunk_from_readback(32, 32, None, Some(vec![0u8; 24576])).unwrap_err(), StreamError::ReadbackFailure);
    assert_eq!(chunk_from_readback(32, 32, Some(vec![0u8; 34848]), None).unwrap_err(), StreamError::ReadbackFailure);
    assert_eq!(
        chunk_from_readback(32, 32, Some(vec![0u8; 34847]), Some(vec![0u8; 24576])).unwrap_err(),
        StreamError::ReadbackFailure
    );
    assert_eq!(query_from_readback(None), Err(StreamError::ReadbackFailure));
    assert_eq!(query_from_readback(Some(vec![1, 2, 3])), Err(StreamError::ReadbackFailure));
    assert_eq!(query_from_readback(Some(vec![0, 0, 128, 63])), Ok([0, 0, 128, 63]));
    assert_eq!(f32::from_le_bytes(query_from_readback(Some(vec![0, 0, 128, 63])).unwrap()), 1.0);
}

fn requests(keys: &[ChunkKey]) -> BTreeMap<ChunkKey, ChunkKey> {
    keys.iter().map(|k| (*k, *k)).collect()
}

#[test]
fn one_failed_generation_spares_the_rest() {
    let keys = [(0, 0), (32, 0), (0, 32), (-32, 0), (0, -32)];
    let requested = requests(&keys);
    let mut cw = ComputeWorld::new();
    let work = cw.missing_chunks(&requested);
    assert_eq!(work.len(), keys.len());
    let mut generated = BTreeMap::new();
    for (k, _anchor) in &work {
        if *k == (0, 32) {
            generated.insert(*k, Err(StreamError::ReadbackFailure));
        } else {
            generated.insert(*k, Ok(chunk_bytes(9)));
        }
    }
    let fresh = cw.load_chunks(&requested, generated).unwrap();
    assert_eq!(fresh.len(), keys.len() - 1);
    assert_eq!(cw.chunks.len(), keys.len() - 1);
    assert!(!cw.chunks.contains_key(&(0, 32)));
    assert!(!fresh.contains_key(&(0, 32)));
    for k in keys.iter().filter(|k| **k != (0, 32)) {
        assert!(cw.chunks.contains_key(k));
        assert_eq!(fresh[k].vertex_data, cw.chunks[k].vertex_data);
    }
    // the failed chunk is the only work of the next pass
    let work = cw.missing_chunks(&requested);
    assert_eq!(work, vec![((0, 32), (0, 32))]);
}

#[test]
fn cached_chunks_are_published_again() {
    let mut cw = ComputeWorld::new();
    let mut generated = BTreeMap::new();
    generated.insert((0, 0), Ok(chunk_bytes(1)));
    let first = cw.load_chunks(&requests(&[(0, 0)]), generated).unwrap();
    assert!(first.contains_key(&(0, 0)));
    // still cached: no generation needed, but handed over again
    assert!(cw.missing_chunks(&requests(&[(0, 0), (32, 32)])) == vec![((32, 32), (32, 32))]);
    let again = cw.load_chunks(&requests(&[(0, 0), (32, 32)]), BTreeMap::new()).unwrap();
    assert_eq!(again.len(), 1);
    assert_eq!(again[&(0, 0)].vertex_data, chunk_bytes(1).vertex_data);
    assert_eq!(cw.chunks.len(), 1);
    let gone = cw.load_chunks(&requests(&[(32, 32)]), BTreeMap::new()).unwrap();
    assert!(gone.is_empty());
    assert!(cw.chunks.is_empty());
}

#[test]
fn rerequested_chunk_becomes_resident_again() {
    let mut w: World<()> = World::with_radius(32, 32, 0);
    let mut cw = ComputeWorld::new();
    w.preflight_chunks(0, 0);
    let mut generated = BTreeMap::new();
    generated.insert((0, 0), Ok(chunk_bytes(2)));
    let published = cw.load_chunks(&w.requested_chunks, generated).unwrap();
    w.stage_chunks(published);
    let staged = w.take_staged();
    w.ingest_batch(staged.into_iter().map(|(k, d)| (k, d, (), ())).collect());
    assert!(w.chunks.contains_key(&(0, 0)));
    // leave and come back before the generator's next pass
    w.preflight_chunks(100, 0);
    w.preflight_chunks(0, 0);
    assert!(w.requested_chunks.contains_key(&(0, 0)));
    let published = cw.load_chunks(&w.requested_chunks, BTreeMap::new()).unwrap();
    w.stage_chunks(published);
    let staged = w.take_staged();
    w.ingest_batch(staged.into_iter().map(|(k, d)| (k, d, (), ())).collect());
    assert!(w.chunks.contains_key(&(0, 0)));
    assert!(!w.requested_chunks.contains_key(&(0, 0)));
}

#[test]
fn device_exhaustion_is_reported() {
    let mut cw = ComputeWorld::new();
    let requested = requests(&[(0, 0), (32, 0)]);
    let mut generated = BTreeMap::new();
    generated.insert((0, 0), Ok(chunk_bytes(5)));
    generated.insert((32, 0), Err(StreamError::DeviceExhausted));
    assert_eq!(cw.load_chunks(&requested, generated).unwrap_err(), StreamError::DeviceExhausted);
    assert!(cw.chunks.contains_key(&(0, 0)));
    assert!(!cw.chunks.contains_key(&(32, 0)));
    // an exhaustion for a chunk that is not needed does not count
    let mut generated = BTreeMap::new();
    generated.insert((0, 0), Err(StreamError::DeviceExhausted));
    assert!(cw.load_chunks(&requests(&[(0, 0)]), generated).is_ok());
}

#[test]
fn batch_ingestion_makes_all_resident() {
    let mut w: World<u8> = World::with_radius(32, 32, 1);
    w.preflight_chunks(0, 0);
    let before = w.requested_chunks.len();
    let mut drained = BTreeMap::new();
    drained.insert((0, 0), chunk_bytes(1));
    drained.insert((32, 0), chunk_bytes(2));
    w.stage_chunks(drained);
    let staged = w.take_staged();
    let batch: Vec<(ChunkKey, RawBufferData, u8, u8)> =
        staged.into_iter().enumerate().map(|(n, (k, d))| (k, d, n as u8, n as u8)).collect();
    w.ingest_batch(batch);
    assert_eq!(w.chunks.len(), 2);
    assert_eq!(w.requested_chunks.len(), before - 2);
    assert!(w.raw_buffer_data.is_empty());
    // a later entry under the same key wins
    w.ingest_batch(vec![((0, 0), chunk_bytes(3), 7, 7), ((0, 0), chunk_bytes(4), 9, 9)]);
    assert_eq!(w.chunks[&(0, 0)].mesh.vertex_buffer, 9);
    assert_eq!(w.chunks[&(0, 0)].data.vertex_data[0], 4);
}

#[test]
fn empty_batch_changes_nothing() {
    let mut w: World<()> = World::new(32, 32);
    w.preflight_chunks(0, 0);
    let req = w.requested_chunks.clone();
    w.ingest_batch(Vec::new());
    assert!(w.chunks.is_empty());
    assert_eq!(req, w.requested_chunks);
    assert!(w.raw_buffer_data.is_empty());
}

#[test]
fn staging_merges_instead_of_replacing() {
    let mut staging: BTreeMap<ChunkKey, u8> = BTreeMap::new();
    staging.insert((0, 0), 1);
    staging.insert((1, 1), 2);
    let mut fresh = BTreeMap::new();
    fresh.insert((1, 1), 3);
    fresh.insert((2, 2), 4);
    merge_into(&mut staging, fresh);
    let all: Vec<(ChunkKey, u8)> = staging.into_iter().collect();
    assert_eq!(all, vec![((0, 0), 1), ((1, 1), 3), ((2, 2), 4)]);
}
