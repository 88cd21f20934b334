use rxmarshal::error::ErrorKind;
use rxmarshal::{decode, encode_fixnum, Object, Value};

fn bytes(parts: &[&[u8]]) -> Vec<u8> {
    let mut v = Vec::new();
    for p in parts {
        v.extend_from_slice(p);
    }
    v
}

fn sym(name: &[u8]) -> Vec<u8> {
    bytes(&[b":", &encode_fixnum(name.len() as i32), name])
}

#[test]
fn empty_array_decodes() {
    let input = bytes(&[b"[", &encode_fixnum(0)]);
    let d = decode(input).unwrap();
    assert_eq!(d.root, Value::Array(Vec::new()));
    assert_eq!(d.objects.len(), 1);
}

#[test]
fn array_children_decode_left_to_right() {
    let input = bytes(&[b"[", &encode_fixnum(3), b"T", b"0", &[b'i', 0x69]]);
    let d = decode(input).unwrap();
    assert_eq!(
        d.root,
        Value::Array(vec![Value::Bool(true), Value::Null, Value::Int(100)]),
    );
}

#[test]
fn self_referential_array_resolves_to_its_own_cache_entry() {
    // an array whose sole element is a link back to its own slot
    let input = bytes(&[b"[", &encode_fixnum(1), b"@", &encode_fixnum(0)]);
    let d = decode(input).unwrap();
    assert_eq!(d.root, Value::Array(vec![Value::Link(0)]));
    // the element, resolved, is the containing array's cache entry
    match &d.root {
        Value::Array(elems) => match &elems[0] {
            Value::Link(i) => {
                let target = d.resolve_link(*i).expect("slot must exist");
                assert_eq!(*target, d.root);
            },
            other => panic!("expected a link, got {:?}", other),
        },
        other => panic!("expected an array, got {:?}", other),
    }
}

#[test]
fn nested_arrays_occupy_separate_cache_slots() {
    let inner = bytes(&[b"[", &encode_fixnum(0)]);
    let input = bytes(&[b"[", &encode_fixnum(1), &inner]);
    let d = decode(input).unwrap();
    assert_eq!(d.root, Value::Array(vec![Value::Array(Vec::new())]));
    assert_eq!(d.objects.len(), 2);
    assert_eq!(d.objects[0], d.root);
    assert_eq!(d.objects[1], Value::Array(Vec::new()));
}

#[test]
fn link_to_earlier_value_resolves() {
    // ["x", @0]: the second element links to the string's slot... the
    // string occupies slot 1 (the array reserved slot 0 first)
    let s = bytes(&[b"\"", &encode_fixnum(1), b"x"]);
    let input = bytes(&[b"[", &encode_fixnum(2), &s, b"@", &encode_fixnum(1)]);
    let d = decode(input).unwrap();
    assert_eq!(
        d.root,
        Value::Array(vec![Value::Str(b"x".to_vec()), Value::Link(1)]),
    );
    assert_eq!(*d.resolve_link(1).unwrap(), Value::Str(b"x".to_vec()));
}

#[test]
fn link_index_at_cache_length_is_out_of_range() {
    // at the link, only the array's own slot 0 exists, so index 1 is out
    // of range
    let input = bytes(&[b"[", &encode_fixnum(1), b"@", &encode_fixnum(1)]);
    let e = decode(input).unwrap_err();
    assert_eq!(e.kind, ErrorKind::LinkIndexOutOfRange);
}

#[test]
fn link_with_no_cache_is_out_of_range() {
    let input = bytes(&[b"@", &encode_fixnum(0)]);
    let e = decode(input).unwrap_err();
    assert_eq!(e.kind, ErrorKind::LinkIndexOutOfRange);
    assert_eq!(e.offset, 1);
}

#[test]
fn negative_link_index_is_out_of_range() {
    let input = bytes(&[b"@", &encode_fixnum(-1)]);
    let e = decode(input).unwrap_err();
    assert_eq!(e.kind, ErrorKind::LinkIndexOutOfRange);
}

#[test]
fn symlink_resolves_to_interned_symbol() {
    // [:abc, ;0]
    let input = bytes(&[b"[", &encode_fixnum(2), &sym(b"abc"), b";", &encode_fixnum(0)]);
    let d = decode(input).unwrap();
    assert_eq!(
        d.root,
        Value::Array(vec![Value::Symbol(b"abc".to_vec()), Value::Symlink(0)]),
    );
    assert_eq!(d.resolve_symlink(0).unwrap(), &b"abc".to_vec());
}

#[test]
fn symlink_out_of_range_is_rejected() {
    let input = bytes(&[b";", &encode_fixnum(0)]);
    let e = decode(input).unwrap_err();
    assert_eq!(e.kind, ErrorKind::SymlinkIndexOutOfRange);
}

#[test]
fn hash_with_integer_keys_preserves_insertion_order() {
    let input = bytes(&[
        b"{",
        &encode_fixnum(2),
        b"i",
        &encode_fixnum(7),
        b"T",
        b"i",
        &encode_fixnum(3),
        b"F",
    ]);
    let d = decode(input).unwrap();
    assert_eq!(
        d.root,
        Value::Hash(vec![(7, Value::Bool(true)), (3, Value::Bool(false))]),
    );
}

#[test]
fn hash_duplicate_key_overwrites_in_place() {
    let input = bytes(&[
        b"{",
        &encode_fixnum(3),
        b"i",
        &encode_fixnum(1),
        b"T",
        b"i",
        &encode_fixnum(2),
        b"0",
        b"i",
        &encode_fixnum(1),
        b"F",
    ]);
    let d = decode(input).unwrap();
    assert_eq!(
        d.root,
        Value::Hash(vec![(1, Value::Bool(false)), (2, Value::Null)]),
    );
}

#[test]
fn hash_with_symbol_key_fails_as_not_integer() {
    let input = bytes(&[b"{", &encode_fixnum(1), &sym(b"k"), b"T"]);
    let e = decode(input).unwrap_err();
    assert_eq!(e.kind, ErrorKind::HashKeyNotInteger);
    // the offset names the key's tag byte
    assert_eq!(e.offset, 2);
}

#[test]
fn hash_with_string_key_fails_as_not_integer() {
    let key = bytes(&[b"\"", &encode_fixnum(1), b"k"]);
    let input = bytes(&[b"{", &encode_fixnum(1), &key, b"T"]);
    let e = decode(input).unwrap_err();
    assert_eq!(e.kind, ErrorKind::HashKeyNotInteger);
}

#[test]
fn object_collects_sentinel_named_variables_in_order() {
    let input = bytes(&[
        b"o",
        &sym(b"Point"),
        &encode_fixnum(2),
        &sym(b"@x"),
        &[b'i', 0x06],
        &sym(b"@y"),
        &[b'i', 0x07],
    ]);
    let d = decode(input).unwrap();
    assert_eq!(
        d.root,
        Value::Object(Object {
            name: b"Point".to_vec(),
            list: vec![
                (b"@x".to_vec(), Value::Int(1)),
                (b"@y".to_vec(), Value::Int(2)),
            ],
        }),
    );
}

#[test]
fn object_duplicate_variable_names_are_both_retained() {
    let input = bytes(&[
        b"o",
        &sym(b"Rec"),
        &encode_fixnum(2),
        &sym(b"@v"),
        b"T",
        b";",
        &encode_fixnum(1),
        b"F",
    ]);
    let d = decode(input).unwrap();
    assert_eq!(
        d.root,
        Value::Object(Object {
            name: b"Rec".to_vec(),
            list: vec![
                (b"@v".to_vec(), Value::Bool(true)),
                (b"@v".to_vec(), Value::Bool(false)),
            ],
        }),
    );
}

#[test]
fn object_key_without_sentinel_is_rejected() {
    let input = bytes(&[b"o", &sym(b"Thing"), &encode_fixnum(1), &sym(b"x"), b"T"]);
    let e = decode(input).unwrap_err();
    assert_eq!(e.kind, ErrorKind::ObjectKeyNotInstanceVariable);
}

#[test]
fn object_name_may_come_through_a_symlink() {
    // [:A, o;0 with zero variables]
    let obj = bytes(&[b"o", b";", &encode_fixnum(0), &encode_fixnum(0)]);
    let input = bytes(&[b"[", &encode_fixnum(2), &sym(b"A"), &obj]);
    let d = decode(input).unwrap();
    assert_eq!(
        d.root,
        Value::Array(vec![
            Value::Symbol(b"A".to_vec()),
            Value::Object(Object { name: b"A".to_vec(), list: Vec::new() }),
        ]),
    );
}

#[test]
fn ivar_wrapper_returns_wrapped_value_and_discards_metadata() {
    // I"abc" with one (:E, true) metadata pair
    let s = bytes(&[b"\"", &encode_fixnum(3), b"abc"]);
    let input = bytes(&[b"I", &s, &encode_fixnum(1), &sym(b"E"), b"T"]);
    let d = decode(input).unwrap();
    assert_eq!(d.root, Value::Str(b"abc".to_vec()));
    // the metadata symbol was still interned
    assert_eq!(d.symbols, vec![b"E".to_vec()]);
}
