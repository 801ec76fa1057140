use mvt_tiles::mvt::{decode_tile, encode_tile, read_feature, read_features};
use mvt_tiles::varint::{read_varint, write_varint, zigzag_decode, zigzag_encode};

#[test]
fn varint_single_byte() {
    let mut v: Vec<u8> = Vec::new();
    write_varint(&mut v, 0);
    write_varint(&mut v, 127);
    assert_eq!(v, vec![0, 127]);
    assert_eq!(read_varint(&v, 0), Some((0, 1)));
    assert_eq!(read_varint(&v, 1), Some((127, 2)));
}

#[test]
fn varint_multi_byte() {
    let mut v: Vec<u8> = Vec::new();
    write_varint(&mut v, 300);
    assert_eq!(v, vec![172, 2]);
    write_varint(&mut v, u64::MAX);
    assert_eq!(read_varint(&v, 0), Some((300, 2)));
    assert_eq!(read_varint(&v, 2), Some((u64::MAX, v.len())));
}

#[test]
fn varint_truncated_stream() {
    // a lone continuation byte has no value to read
    let v: Vec<u8> = vec![0x80];
    assert_eq!(read_varint(&v, 0), None);
    assert_eq!(read_varint(&v, 1), None);
}

#[test]
fn zigzag_small_values() {
    assert_eq!(zigzag_encode(0), 0);
    assert_eq!(zigzag_encode(-1), 1);
    assert_eq!(zigzag_encode(1), 2);
    assert_eq!(zigzag_encode(-2), 3);
    assert_eq!(zigzag_encode(2), 4);
}

#[test]
fn zigzag_round_trip_extremes() {
    for v in [0, 1, -1, 4095, -4096, i32::MAX, i32::MIN] {
        assert_eq!(zigzag_decode(zigzag_encode(v)), v);
    }
    assert_eq!(zigzag_encode(i32::MIN), u32::MAX);
}

#[test]
fn empty_tile_bytes_are_exact() {
    // name "pts": layer = name, extent 4096, version 2 — and no feature
    let name: Vec<u8> = b"pts".to_vec();
    let tile = encode_tile(&name, 4096, &Vec::new());
    assert_eq!(tile, vec![26, 10, 10, 3, 112, 116, 115, 40, 128, 32, 120, 2]);
}

#[test]
fn one_point_tile_bytes_are_exact() {
    let name: Vec<u8> = b"pts".to_vec();
    let tile = encode_tile(&name, 4096, &vec![(455, 1324)]);
    assert_eq!(
        tile,
        vec![
            26, 21, 10, 3, 112, 116, 115, 18, 9, 24, 1, 34, 5, 9, 142, 7, 216, 20, 40, 128, 32,
            120, 2
        ]
    );
}

#[test]
fn empty_tile_decodes_to_zero_features() {
    let name: Vec<u8> = b"layer".to_vec();
    let tile = encode_tile(&name, 4096, &Vec::new());
    let (dname, extent, pts) = decode_tile(&tile).expect("a well-formed tile");
    assert_eq!(dname, name);
    assert_eq!(extent, 4096);
    assert!(pts.is_empty());
}

#[test]
fn tile_round_trip_recovers_coordinates() {
    let name: Vec<u8> = b"poi".to_vec();
    let pts: Vec<(i32, i32)> = vec![(0, 0), (455, 1324), (4095, 4095), (1, 4094), (2048, 7)];
    let tile = encode_tile(&name, 4096, &pts);
    let (dname, extent, dpts) = decode_tile(&tile).expect("a well-formed tile");
    assert_eq!(dname, name);
    assert_eq!(extent, 4096);
    assert_eq!(dpts, pts);
}

#[test]
fn tile_round_trip_signed_coordinates() {
    // clamping keeps the encoder inside 0..extent, but the zigzag geometry
    // itself is lossless for any signed pair
    let name: Vec<u8> = b"raw".to_vec();
    let pts: Vec<(i32, i32)> = vec![(-5, 17), (i32::MAX, i32::MIN), (-4096, -1)];
    let tile = encode_tile(&name, 4096, &pts);
    let (_, _, dpts) = decode_tile(&tile).expect("a well-formed tile");
    assert_eq!(dpts, pts);
}

#[test]
fn empty_payload_is_not_a_tile() {
    assert!(decode_tile(&Vec::new()).is_none());
}

#[test]
fn garbage_payload_is_not_a_tile() {
    assert!(decode_tile(&vec![1, 2, 3]).is_none());
    // a tile whose layer length overruns the stream is rejected
    assert!(decode_tile(&vec![26, 99, 10, 0]).is_none());
}

#[test]
fn feature_reader_matches_encoder() {
    let name: Vec<u8> = b"x".to_vec();
    let tile = encode_tile(&name, 4096, &vec![(7, 9)]);
    // the single feature message starts after tag, layer length, name
    // header and the feature frame header
    let frame_start = 1 + 1 + 2 + name.len();
    let ((x, y), _end) = read_feature(&tile, frame_start + 2).expect("one feature");
    assert_eq!((x, y), (7, 9));
    let (run, _) = read_features(&tile, frame_start).expect("a feature run");
    assert_eq!(run, vec![(7, 9)]);
}
