use rxmarshal::utf8::check_utf8;
use rxmarshal::Reader;
use rxmarshal::{
    classify_float_text, decode, encode_fixnum, Color, FloatKind, Object, PureObject, Table, Tone,
    Value,
};

fn bytes(parts: &[&[u8]]) -> Vec<u8> {
    let mut v = Vec::new();
    for p in parts {
        v.extend_from_slice(p);
    }
    v
}

#[test]
fn object_default_is_empty() {
    let o = Object::default();
    assert!(o.name.is_empty());
    assert!(o.list.is_empty());
}

#[test]
fn object_clone_returns_a_fresh_empty_object() {
    let o = Object::clone();
    assert!(o.name.is_empty());
    assert!(o.list.is_empty());
}

#[test]
fn pure_object_default_is_empty() {
    let o = PureObject::default();
    assert!(o.name.is_empty());
    assert!(o.list.is_empty());
}

#[test]
fn pure_object_clone_returns_a_fresh_empty_object() {
    let o = PureObject::clone();
    assert!(o.name.is_empty());
    assert!(o.list.is_empty());
}

#[test]
fn color_default_is_black_with_full_alpha() {
    let c = Color::default();
    assert_eq!(c.red, 0);
    assert_eq!(c.green, 0);
    assert_eq!(c.blue, 0);
    assert_eq!(c.alpha, 1.0f64.to_bits());
}

#[test]
fn tone_default_is_neutral() {
    let t = Tone::default();
    assert_eq!((t.red, t.green, t.blue, t.gray), (0, 0, 0, 0));
}

#[test]
fn table_default_is_empty() {
    let t = Table::default();
    assert_eq!((t.x_size, t.y_size, t.z_size), (0, 0, 0));
    assert!(t.data.is_empty());
}

#[test]
fn table_clone_copies_dimensions_and_cells() {
    let t = Table { x_size: 2, y_size: 3, z_size: 4, data: vec![9, -9, 0] };
    let c = Table::clone(t);
    assert_eq!((c.x_size, c.y_size, c.z_size), (2, 3, 4));
    assert_eq!(c.data, vec![9, -9, 0]);
}

#[test]
fn duplicate_copies_a_whole_graph() {
    let v = Value::Array(vec![
        Value::Hash(vec![(1, Value::Str(b"s".to_vec()))]),
        Value::Object(Object { name: b"C".to_vec(), list: vec![(b"@a".to_vec(), Value::Link(0))] }),
        Value::Table(Table { x_size: 1, y_size: 1, z_size: 1, data: vec![7] }),
    ]);
    assert_eq!(v.duplicate(), v);
}

#[test]
fn classify_float_text_special_literals() {
    assert_eq!(classify_float_text(&b"nan".to_vec()), FloatKind::NotANumber);
    assert_eq!(classify_float_text(&b"inf".to_vec()), FloatKind::PositiveInfinity);
    assert_eq!(classify_float_text(&b"-inf".to_vec()), FloatKind::NegativeInfinity);
}

#[test]
fn classify_float_text_decimal_texts() {
    for t in [&b"3.14"[..], b"-0.5", b"nane", b"in", b"infx", b"", b"-in"] {
        assert_eq!(classify_float_text(&t.to_vec()), FloatKind::Decimal);
    }
}

#[test]
fn utf8_checker_accepts_well_formed_sequences() {
    for s in [&b"ascii"[..], b"", "héllo".as_bytes(), "日本語".as_bytes(), "🙂".as_bytes()] {
        assert!(check_utf8(&s.to_vec()), "expected valid: {:?}", s);
        assert!(std::str::from_utf8(s).is_ok());
    }
}

#[test]
fn utf8_checker_rejects_malformed_sequences() {
    let cases: &[&[u8]] = &[
        b"\xFF",
        b"\x80",
        b"\xC2",
        b"\xC2\x20",
        b"\xE0\x80\x80",
        b"\xED\xA0\x80",
        b"\xF5\x80\x80\x80",
        b"\xF4\x90\x80\x80",
        b"\xC0\xAF",
    ];
    for s in cases {
        assert!(!check_utf8(&s.to_vec()), "expected invalid: {:?}", s);
        assert!(std::str::from_utf8(s).is_err());
    }
}

#[test]
fn resolve_out_of_range_indices_give_none() {
    let d = decode(bytes(&[b"[", &encode_fixnum(0)])).unwrap();
    assert!(d.resolve_link(1).is_none());
    assert!(d.resolve_symlink(0).is_none());
}

#[test]
fn reader_caches_start_empty() {
    let r = Reader::new(vec![0x30]);
    assert_eq!(r.pos, 0);
    assert!(r.object_cache.is_empty());
    assert!(r.symbol_cache.is_empty());
    assert!(r.diagnostics.is_empty());
}

#[test]
fn intern_and_reserve_return_consecutive_indices() {
    let mut r = Reader::new(Vec::new());
    assert_eq!(r.intern_symbol(b"a".to_vec()), 0);
    assert_eq!(r.intern_symbol(b"b".to_vec()), 1);
    assert_eq!(r.reserve_object_slot(), 0);
    assert_eq!(r.reserve_object_slot(), 1);
    assert_eq!(r.symbol_cache, vec![b"a".to_vec(), b"b".to_vec()]);
}
