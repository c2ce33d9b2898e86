use std::collections::BTreeMap;
use std::collections::BTreeSet;

use terrain_stream::window::{disk_test, snap_coord};
use terrain_stream::{ChunkKey, RawBufferData, World};

fn requested_set<B>(w: &World<B>) -> BTreeSet<ChunkKey> {
    w.requested_chunks.keys().copied().collect()
}

fn disk_keys(cx: i32, cz: i32, n: i32, r: i32) -> BTreeSet<ChunkKey> {
    let mut out = BTreeSet::new();
    for i in -r..=r {
        for z in -r..=r {
            if i * i + z * z <= r * r + 1 {
                out.insert((cx + i * n, cz + z * n));
            }
        }
    }
    out
}

#[test]
fn origin_window_matches_enumeration() {
    let mut w: World<()> = World::new(32, 32);
    assert_eq!(w.radius(), 10);
    w.preflight_chunks(0, 0);
    let expected = disk_keys(0, 0, 32, 10);
    assert_eq!(requested_set(&w), expected);
    assert_eq!(w.requested_chunks.len(), expected.len());
    // the slack term admits more offsets than the exact disk
    let mut exact = 0usize;
    for i in -10i32..=10 {
        for z in -10i32..=10 {
            if i * i + z * z <= 100 {
                exact += 1;
            }
        }
    }
    assert!(expected.len() > exact);
    for (k, anchor) in &w.requested_chunks {
        assert_eq!(k, anchor);
    }
    assert!(w.chunks.is_empty());
}

#[test]
fn same_corner_same_window() {
    let mut a: World<()> = World::new(32, 32);
    let mut b: World<()> = World::new(32, 32);
    a.preflight_chunks(1, 2);
    b.preflight_chunks(31, 17);
    assert_eq!(requested_set(&a), requested_set(&b));
    let mut c: World<()> = World::new(32, 32);
    c.preflight_chunks(32, 2);
    assert_ne!(requested_set(&a), requested_set(&c));
}

#[test]
fn negative_positions_round_down() {
    assert_eq!(snap_coord(-1, 32), -32);
    assert_eq!(snap_coord(-32, 32), -32);
    assert_eq!(snap_coord(-33, 32), -64);
    assert_eq!(snap_coord(31, 32), 0);
    assert_eq!(snap_coord(64, 32), 64);
    let mut w: World<()> = World::with_radius(32, 32, 0);
    w.preflight_chunks(-1, -1);
    let keys: Vec<ChunkKey> = requested_set(&w).into_iter().collect();
    assert_eq!(keys, vec![(-32, -32)]);
}

#[test]
fn disk_test_symmetry() {
    for r in 0i64..6 {
        for i in -r..=r {
            for z in -r..=r {
                let d = disk_test(i, z, r);
                assert_eq!(d, disk_test(-i, z, r));
                assert_eq!(d, disk_test(i, -z, r));
                assert_eq!(d, disk_test(-z, i, r));
            }
        }
    }
    assert!(disk_test(10, 1, 10));
    assert!(!disk_test(10, 2, 10));
}

fn resident_world(keys: &[ChunkKey]) -> World<u32> {
    let mut w: World<u32> = World::with_radius(4, 4, 2);
    for (n, k) in keys.iter().enumerate() {
        let data = RawBufferData { vertex_data: vec![0u8; 25 * 32], index_data: vec![0u8; 16 * 6 * 4] };
        w.ingest_chunk_data(*k, data, n as u32, n as u32 + 100);
    }
    w
}

#[test]
fn resident_and_requested_stay_disjoint() {
    let mut w = resident_world(&[(0, 0), (4, 0), (40, 40)]);
    w.preflight_chunks(1, 1);
    assert!(w.chunks.contains_key(&(0, 0)));
    assert!(w.chunks.contains_key(&(4, 0)));
    // outside the window: dropped
    assert!(!w.chunks.contains_key(&(40, 40)));
    for k in w.requested_chunks.keys() {
        assert!(!w.chunks.contains_key(k));
    }
    assert_eq!(w.chunks.len() + w.requested_chunks.len(), disk_keys(0, 0, 4, 2).len());
}

#[test]
fn planning_twice_is_idempotent() {
    let mut w = resident_world(&[(0, 0), (-4, 4), (8, 8)]);
    w.preflight_chunks(2, 3);
    let chunks1: Vec<(ChunkKey, u32)> = w.chunks.iter().map(|(k, c)| (*k, c.mesh.vertex_buffer)).collect();
    let req1: BTreeMap<ChunkKey, ChunkKey> = w.requested_chunks.clone();
    w.preflight_chunks(2, 3);
    let chunks2: Vec<(ChunkKey, u32)> = w.chunks.iter().map(|(k, c)| (*k, c.mesh.vertex_buffer)).collect();
    assert_eq!(chunks1, chunks2);
    assert_eq!(req1, w.requested_chunks);
}

#[test]
fn moving_viewer_drops_stale_requests() {
    let mut w: World<()> = World::with_radius(8, 8, 1);
    w.preflight_chunks(0, 0);
    assert!(w.requested_chunks.contains_key(&(-8, 0)));
    w.preflight_chunks(800, 0);
    assert!(!w.requested_chunks.contains_key(&(-8, 0)));
    assert!(w.requested_chunks.contains_key(&(800, 0)));
    assert_eq!(w.requested_chunks.len(), disk_keys(0, 0, 8, 1).len());
}

#[test]
fn window_fit_check() {
    let w: World<()> = World::new(32, 32);
    assert!(w.window_fits_at(0, 0));
    assert!(!w.window_fits_at(i32::MAX, 0));
    assert!(!w.window_fits_at(0, i32::MIN));
    assert!(w.window_fits_at(i32::MAX - 400, i32::MIN + 400));
}
