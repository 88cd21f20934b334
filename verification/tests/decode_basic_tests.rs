use rxmarshal::error::ErrorKind;
use rxmarshal::{decode, encode_fixnum, Value};

fn bytes(parts: &[&[u8]]) -> Vec<u8> {
    let mut v = Vec::new();
    for p in parts {
        v.extend_from_slice(p);
    }
    v
}

fn sym(name: &[u8]) -> Vec<u8> {
    bytes(&[b":", &encode_fixnum(name.len() as i32), name])
}

#[test]
fn nil_tag_decodes_to_null() {
    let d = decode(vec![0x30]).unwrap();
    assert_eq!(d.root, Value::Null);
    assert!(d.objects.is_empty());
    assert!(d.symbols.is_empty());
    assert!(d.diagnostics.is_empty());
}

#[test]
fn true_tag_decodes_to_bool_true() {
    let d = decode(vec![0x54]).unwrap();
    assert_eq!(d.root, Value::Bool(true));
}

#[test]
fn false_tag_decodes_to_bool_false() {
    let d = decode(vec![0x46]).unwrap();
    assert_eq!(d.root, Value::Bool(false));
}

#[test]
fn fixnum_value_zero() {
    let d = decode(vec![b'i', 0x00]).unwrap();
    assert_eq!(d.root, Value::Int(0));
}

#[test]
fn fixnum_value_hundred() {
    let d = decode(vec![b'i', 0x69]).unwrap();
    assert_eq!(d.root, Value::Int(100));
}

#[test]
fn fixnum_value_one_forty_four() {
    let d = decode(vec![b'i', 0x01, 0x90]).unwrap();
    assert_eq!(d.root, Value::Int(144));
}

#[test]
fn string_keeps_raw_bytes_and_registers_cache_slot() {
    let input = bytes(&[b"\"", &encode_fixnum(3), b"\xFFhi"]);
    let d = decode(input).unwrap();
    assert_eq!(d.root, Value::Str(vec![0xFF, b'h', b'i']));
    assert_eq!(d.objects.len(), 1);
    assert_eq!(d.objects[0], Value::Str(vec![0xFF, b'h', b'i']));
}

#[test]
fn empty_string_decodes() {
    let input = bytes(&[b"\"", &encode_fixnum(0)]);
    let d = decode(input).unwrap();
    assert_eq!(d.root, Value::Str(Vec::new()));
}

#[test]
fn symbol_interns_into_symbol_cache() {
    let d = decode(sym(b"name")).unwrap();
    assert_eq!(d.root, Value::Symbol(b"name".to_vec()));
    assert_eq!(d.symbols, vec![b"name".to_vec()]);
    assert!(d.objects.is_empty());
}

#[test]
fn symbol_with_invalid_utf8_is_rejected() {
    let e = decode(sym(b"\xFFbad")).unwrap_err();
    assert_eq!(e.kind, ErrorKind::InvalidUtf8);
    // the offset names the first byte of the symbol's payload
    assert_eq!(e.offset, 2);
}

#[test]
fn float_keeps_ascii_text() {
    let input = bytes(&[b"f", &encode_fixnum(6), b"3.1415"]);
    let d = decode(input).unwrap();
    assert_eq!(d.root, Value::Float(b"3.1415".to_vec()));
    assert_eq!(d.objects.len(), 1);
}

#[test]
fn float_special_texts_are_kept_verbatim() {
    for text in [&b"nan"[..], b"inf", b"-inf"] {
        let input = bytes(&[b"f", &encode_fixnum(text.len() as i32), text]);
        let d = decode(input).unwrap();
        assert_eq!(d.root, Value::Float(text.to_vec()));
    }
}

#[test]
fn unknown_tag_is_reported_with_its_byte_and_offset() {
    let e = decode(vec![b'z']).unwrap_err();
    assert_eq!(e.kind, ErrorKind::UnknownTypeTag(b'z'));
    assert_eq!(e.offset, 0);
}

#[test]
fn empty_input_is_eof() {
    let e = decode(Vec::new()).unwrap_err();
    assert_eq!(e.kind, ErrorKind::UnexpectedEof);
    assert_eq!(e.offset, 0);
}

#[test]
fn unsupported_tags_of_the_wider_format_are_unknown_here() {
    // bignum, class, data, module, regexp, struct, user-marshal tags lie
    // outside the supported subset
    for t in [b'l', b'c', b'd', b'm', b'/', b'S', b'U'] {
        let e = decode(vec![t]).unwrap_err();
        assert_eq!(e.kind, ErrorKind::UnknownTypeTag(t));
    }
}

#[test]
fn trailing_bytes_after_root_are_not_read() {
    let d = decode(vec![0x54, 0x99, 0x99]).unwrap();
    assert_eq!(d.root, Value::Bool(true));
}
