use terrain_stream::geometry::{
    chunk_size_is_valid, index_buffer_size, index_count, vertex_buffer_size, vertex_count, workgroup_count,
};
use terrain_stream::{key_of, parse_key, RawBufferData, StreamError, Utils};

#[test]
fn layout_of_a_32_chunk() {
    assert_eq!(vertex_count(32, 32), 1089);
    assert_eq!(index_count(32, 32), 6144);
    assert_eq!(vertex_buffer_size(32, 32), 34848);
    assert_eq!(index_buffer_size(32, 32), 24576);
    assert_eq!(workgroup_count(32, 32), 18);
    assert_eq!(workgroup_count(7, 7), 1);
    assert_eq!(workgroup_count(1, 31), 1);
    assert_eq!(workgroup_count(1, 32), 2);
    assert_eq!(vertex_count(2, 5), 18);
    assert_eq!(index_count(2, 5), 60);
}

#[test]
fn chunk_size_limits() {
    assert!(chunk_size_is_valid(32, 32));
    assert!(!chunk_size_is_valid(0, 32));
    assert!(!chunk_size_is_valid(32, 0));
    assert!(!chunk_size_is_valid(u32::MAX, u32::MAX));
    assert!(!chunk_size_is_valid(65536, 65536));
    assert!(chunk_size_is_valid(1, 1));
}

#[test]
fn duplicate_keeps_bytes() {
    let d = RawBufferData { vertex_data: vec![1, 2, 3], index_data: vec![4] };
    let e = d.duplicate();
    assert_eq!(e.vertex_data, vec![1, 2, 3]);
    assert_eq!(e.index_data, vec![4]);
    assert!(!d.fits_layout(32, 32));
}

#[test]
fn key_text_format() {
    assert_eq!(key_of((32, -96)), "32_-96");
    assert_eq!(key_of((0, 0)), "0_0");
    assert_eq!(key_of((i32::MIN, i32::MAX)), "-2147483648_2147483647");
}

#[test]
fn key_round_trip() {
    for k in [(0, 0), (32, -96), (-1, 10), (i32::MIN, i32::MAX), (1234567, -7654321)] {
        assert_eq!(parse_key(&key_of(k)), Ok(k));
    }
    assert_eq!(parse_key("32_-96"), Ok((32, -96)));
}

#[test]
fn malformed_keys() {
    for s in ["", "_", "1_", "_1", "12", "a_1", "01_2", "-0_1", "1_2_3", "+1_2", "1 _2", "2147483648_0", "-2147483649_0", "1_-"] {
        assert_eq!(parse_key(s), Err(StreamError::MalformedKey), "{}", s);
    }
}

#[test]
fn negative_zero_position_keys_like_zero() {
    let neg = (-0.0f32).floor() as i32;
    let pos = (0.0f32).floor() as i32;
    let z = (5.0f32).floor() as i32;
    assert_eq!(key_of((neg, z)), key_of((pos, z)));
    assert_eq!(key_of((neg, z)), "0_5");
}

#[test]
fn utils_holds_parameters() {
    let u = Utils::new(10, 32, 16);
    assert_eq!(u.chunk_distance, 10);
    assert_eq!(u.chunk_size_x, 32);
    assert_eq!(u.chunk_size_z, 16);
}
