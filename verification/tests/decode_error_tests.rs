use rxmarshal::error::ErrorKind;
use rxmarshal::{decode, encode_fixnum, Value, MAX_DEPTH};

fn bytes(parts: &[&[u8]]) -> Vec<u8> {
    let mut v = Vec::new();
    for p in parts {
        v.extend_from_slice(p);
    }
    v
}

#[test]
fn truncated_string_is_eof_and_never_panics() {
    // a declared length of five with only two payload bytes left
    let input = bytes(&[b"\"", &encode_fixnum(5), b"ab"]);
    let e = decode(input).unwrap_err();
    assert_eq!(e.kind, ErrorKind::UnexpectedEof);
    // the offset names the position the payload read started from
    assert_eq!(e.offset, 2);
}

#[test]
fn truncated_fixnum_inside_array_is_eof() {
    let input = bytes(&[b"[", &encode_fixnum(1), b"i", &[0x02, 0x01]]);
    let e = decode(input).unwrap_err();
    assert_eq!(e.kind, ErrorKind::UnexpectedEof);
}

#[test]
fn negative_string_length_is_eof() {
    let input = bytes(&[b"\"", &encode_fixnum(-1)]);
    let e = decode(input).unwrap_err();
    assert_eq!(e.kind, ErrorKind::UnexpectedEof);
}

#[test]
fn negative_array_count_is_eof() {
    let input = bytes(&[b"[", &encode_fixnum(-5)]);
    let e = decode(input).unwrap_err();
    assert_eq!(e.kind, ErrorKind::UnexpectedEof);
}

#[test]
fn array_missing_children_is_eof() {
    let input = bytes(&[b"[", &encode_fixnum(2), b"T"]);
    let e = decode(input).unwrap_err();
    assert_eq!(e.kind, ErrorKind::UnexpectedEof);
}

#[test]
fn deep_nesting_hits_the_resource_limit() {
    // one more nesting level than the budget allows
    let depth = MAX_DEPTH as usize;
    let mut input = Vec::new();
    for _ in 0..depth {
        input.push(b'[');
        input.extend_from_slice(&encode_fixnum(1));
    }
    input.push(b'0');
    let e = decode(input).unwrap_err();
    assert_eq!(e.kind, ErrorKind::ResourceLimitExceeded);
}

#[test]
fn nesting_within_the_limit_decodes() {
    let depth = 100usize;
    let mut input = Vec::new();
    for _ in 0..depth {
        input.push(b'[');
        input.extend_from_slice(&encode_fixnum(1));
    }
    input.push(b'0');
    let d = decode(input).unwrap();
    let mut v = &d.root;
    let mut seen: usize = 0;
    while let Value::Array(elems) = v {
        assert_eq!(elems.len(), 1);
        v = &elems[0];
        seen += 1;
    }
    assert_eq!(seen, depth);
    assert_eq!(*v, Value::Null);
}

#[test]
fn hash_key_eof_reports_eof() {
    let input = bytes(&[b"{", &encode_fixnum(1)]);
    let e = decode(input).unwrap_err();
    assert_eq!(e.kind, ErrorKind::UnexpectedEof);
}

#[test]
fn object_name_with_non_symbol_tag_is_unknown() {
    let input = bytes(&[b"o", b"T"]);
    let e = decode(input).unwrap_err();
    assert_eq!(e.kind, ErrorKind::UnknownTypeTag(b'T'));
    assert_eq!(e.offset, 1);
}

#[test]
fn ivar_wrapper_metadata_key_must_be_a_symbol() {
    let input = bytes(&[b"I", b"0", &encode_fixnum(1), b"T", b"T"]);
    let e = decode(input).unwrap_err();
    assert_eq!(e.kind, ErrorKind::UnknownTypeTag(b'T'));
}

#[test]
fn error_aborts_the_whole_decode() {
    // a valid first element does not rescue a malformed second one
    let input = bytes(&[b"[", &encode_fixnum(2), b"T", b"z"]);
    let e = decode(input).unwrap_err();
    assert_eq!(e.kind, ErrorKind::UnknownTypeTag(b'z'));
}

#[test]
fn error_kinds_have_readable_names() {
    let eof = decode(Vec::new()).unwrap_err();
    assert_eq!(eof.kind_name(), "unexpected end of input");
    let unknown = decode(vec![b'z']).unwrap_err();
    assert_eq!(unknown.kind_name(), "unknown type tag");
    let too_large = decode(vec![b'i', 0x04, 0xFF, 0xFF, 0xFF, 0xFF]).unwrap_err();
    assert_eq!(too_large.kind_name(), "integer too large for 32 bits");
}

#[test]
fn a_failed_decode_leaves_later_decodes_unaffected() {
    let bad = bytes(&[b"[", &encode_fixnum(2), b"T"]);
    assert!(decode(bad).is_err());
    // a fresh call owns fresh caches
    let good = bytes(&[b"[", &encode_fixnum(1), b"F"]);
    let d = decode(good).unwrap();
    assert_eq!(d.root, Value::Array(vec![Value::Bool(false)]));
    assert_eq!(d.objects.len(), 1);
}
