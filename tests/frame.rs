use snapfaas::frame::{decode_frame, encode_frame, header_of, header_value};

#[test]
fn frame_prepends_big_endian_length() {
    let f = encode_frame(b"hello");
    assert_eq!(f, vec![0, 0, 0, 5, b'h', b'e', b'l', b'l', b'o']);
}

#[test]
fn frame_round_trip_keeps_boundaries() {
    let mut stream = encode_frame(b"first");
    stream.extend_from_slice(&encode_frame(b""));
    stream.extend_from_slice(&encode_frame(&[7u8; 300]));
    let (a, used_a) = decode_frame(&stream).unwrap();
    assert_eq!(a, b"first".to_vec());
    assert_eq!(used_a, 9);
    let (b, used_b) = decode_frame(&stream[used_a..]).unwrap();
    assert!(b.is_empty());
    assert_eq!(used_b, 4);
    let (c, used_c) = decode_frame(&stream[used_a + used_b..]).unwrap();
    assert_eq!(c, vec![7u8; 300]);
    assert_eq!(used_c, 304);
}

#[test]
fn frame_incomplete_is_none() {
    assert!(decode_frame(&[0, 0]).is_none());
    assert!(decode_frame(&[0, 0, 0, 3, 1, 2]).is_none());
    assert!(decode_frame(&[]).is_none());
}

#[test]
fn frame_header_values() {
    assert_eq!(header_value(&[0, 0, 1, 0]), 256);
    assert_eq!(header_value(&[1, 2, 3, 4]), 0x01020304);
    assert_eq!(header_value(&[255, 255, 255, 255]), u32::MAX);
    assert_eq!(header_of(0x01020304), [1, 2, 3, 4]);
    assert_eq!(header_of(u32::MAX), [255, 255, 255, 255]);
}
