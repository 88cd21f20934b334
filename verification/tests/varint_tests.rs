use rxmarshal::error::ErrorKind;
use rxmarshal::{decode_fixnum, encode_fixnum};

fn round_trip(n: i32) {
    let enc = encode_fixnum(n);
    let (v, used) = decode_fixnum(&enc, 0).expect("canonical encoding must decode");
    assert_eq!(v, n);
    assert_eq!(used, enc.len());
}

#[test]
fn fixnum_round_trip_representative_set() {
    for &n in &[
        0i32,
        1,
        -1,
        4,
        -4,
        5,
        -5,
        122,
        -122,
        123,
        -123,
        124,
        -124,
        255,
        -256,
        256,
        -257,
        65535,
        65536,
        -65536,
        -65537,
        16777215,
        16777216,
        -16777216,
        -16777217,
        2147483646,
        2147483647,
        -2147483647,
        -2147483648,
    ] {
        round_trip(n);
    }
}

#[test]
fn fixnum_zero_is_one_zero_byte() {
    assert_eq!(encode_fixnum(0), vec![0x00]);
    let (v, used) = decode_fixnum(&vec![0x00], 0).unwrap();
    assert_eq!((v, used), (0, 1));
}

#[test]
fn fixnum_short_positive_form() {
    // 105 - 5 = 100
    let (v, used) = decode_fixnum(&vec![0x69], 0).unwrap();
    assert_eq!((v, used), (100, 1));
}

#[test]
fn fixnum_one_magnitude_byte() {
    // prefix 1, payload 0x90 = 144
    let (v, used) = decode_fixnum(&vec![0x01, 0x90], 0).unwrap();
    assert_eq!((v, used), (144, 2));
}

#[test]
fn fixnum_short_negative_form() {
    // -3 encodes as (-3 - 5) & 0xFF = 0xF8
    assert_eq!(encode_fixnum(-3), vec![0xF8]);
    let (v, _) = decode_fixnum(&vec![0xF8], 0).unwrap();
    assert_eq!(v, -3);
}

#[test]
fn fixnum_magnitude_beyond_i32_rejected() {
    // four magnitude bytes giving 2^32 - 1, which a signed 32-bit value
    // cannot hold
    let e = decode_fixnum(&vec![0x04, 0xFF, 0xFF, 0xFF, 0xFF], 0).unwrap_err();
    assert_eq!(e.kind, ErrorKind::IntegerTooLarge);
    assert_eq!(e.offset, 0);
}

#[test]
fn fixnum_negative_magnitude_beyond_i32_rejected() {
    // prefix -4 with magnitude 0 denotes -2^32
    let e = decode_fixnum(&vec![0xFC, 0x00, 0x00, 0x00, 0x00], 0).unwrap_err();
    assert_eq!(e.kind, ErrorKind::IntegerTooLarge);
}

#[test]
fn fixnum_truncated_payload_is_eof() {
    let e = decode_fixnum(&vec![0x02, 0x10], 0).unwrap_err();
    assert_eq!(e.kind, ErrorKind::UnexpectedEof);
    assert_eq!(e.offset, 1);
}

#[test]
fn fixnum_empty_input_is_eof() {
    let e = decode_fixnum(&Vec::new(), 0).unwrap_err();
    assert_eq!(e.kind, ErrorKind::UnexpectedEof);
}

#[test]
fn fixnum_minimum_value_round_trips_in_four_bytes() {
    let enc = encode_fixnum(i32::MIN);
    assert_eq!(enc, vec![0xFC, 0x00, 0x00, 0x00, 0x80]);
    let (v, _) = decode_fixnum(&enc, 0).unwrap();
    assert_eq!(v, i32::MIN);
}

#[test]
fn fixnum_maximum_value_round_trips_in_four_bytes() {
    let enc = encode_fixnum(i32::MAX);
    assert_eq!(enc, vec![0x04, 0xFF, 0xFF, 0xFF, 0x7F]);
    let (v, _) = decode_fixnum(&enc, 0).unwrap();
    assert_eq!(v, i32::MAX);
}
