use rxmarshal::error::ErrorKind;
use rxmarshal::{decode, encode_fixnum, Diagnostic, Table, Value};

fn bytes(parts: &[&[u8]]) -> Vec<u8> {
    let mut v = Vec::new();
    for p in parts {
        v.extend_from_slice(p);
    }
    v
}

fn sym(name: &[u8]) -> Vec<u8> {
    bytes(&[b":", &encode_fixnum(name.len() as i32), name])
}

fn user(name: &[u8], payload: &[u8]) -> Vec<u8> {
    bytes(&[b"u", &sym(name), &encode_fixnum(payload.len() as i32), payload])
}

fn table_payload(x: i32, y: i32, z: i32, cnt: i32, cells: &[i16]) -> Vec<u8> {
    let mut p = Vec::new();
    p.extend_from_slice(&x.to_le_bytes());
    p.extend_from_slice(&y.to_le_bytes());
    p.extend_from_slice(&z.to_le_bytes());
    p.extend_from_slice(&cnt.to_le_bytes());
    for c in cells {
        p.extend_from_slice(&c.to_le_bytes());
    }
    p
}

#[test]
fn table_record_exposes_cells_in_order() {
    let payload = table_payload(2, 2, 1, 4, &[1, 2, 3, 4]);
    let d = decode(user(b"Table", &payload)).unwrap();
    assert_eq!(
        d.root,
        Value::Table(Table { x_size: 2, y_size: 2, z_size: 1, data: vec![1, 2, 3, 4] }),
    );
    assert!(d.diagnostics.is_empty());
    // the record occupies an object-cache slot like other values
    assert_eq!(d.objects.len(), 1);
}

#[test]
fn table_count_mismatch_is_a_diagnostic_not_an_error() {
    // the explicit count is trusted over the dimensions' product
    let payload = table_payload(2, 2, 2, 3, &[5, 6, 7]);
    let d = decode(user(b"Table", &payload)).unwrap();
    assert_eq!(
        d.root,
        Value::Table(Table { x_size: 2, y_size: 2, z_size: 2, data: vec![5, 6, 7] }),
    );
    assert_eq!(
        d.diagnostics,
        vec![Diagnostic::TableCellCountMismatch { x_size: 2, y_size: 2, z_size: 2, cell_count: 3 }],
    );
}

#[test]
fn table_negative_count_reads_no_cells() {
    let payload = table_payload(1, 1, 1, -2, &[]);
    let d = decode(user(b"Table", &payload)).unwrap();
    assert_eq!(
        d.root,
        Value::Table(Table { x_size: 1, y_size: 1, z_size: 1, data: Vec::new() }),
    );
    assert_eq!(d.diagnostics.len(), 1);
}

#[test]
fn table_negative_cells_round_trip_two_byte_two_complement() {
    let payload = table_payload(1, 1, 1, 1, &[-12345]);
    let d = decode(user(b"Table", &payload)).unwrap();
    assert_eq!(
        d.root,
        Value::Table(Table { x_size: 1, y_size: 1, z_size: 1, data: vec![-12345] }),
    );
}

#[test]
fn color_record_keeps_double_bit_patterns() {
    let mut payload = Vec::new();
    for v in [255.0f64, 128.5, 0.0, 1.0] {
        payload.extend_from_slice(&v.to_bits().to_le_bytes());
    }
    let d = decode(user(b"Color", &payload)).unwrap();
    match d.root {
        Value::Color(c) => {
            assert_eq!(c.red, 255.0f64.to_bits());
            assert_eq!(c.green, 128.5f64.to_bits());
            assert_eq!(c.blue, 0.0f64.to_bits());
            assert_eq!(c.alpha, 1.0f64.to_bits());
        },
        other => panic!("expected a color, got {:?}", other),
    }
}

#[test]
fn tone_record_keeps_double_bit_patterns() {
    let mut payload = Vec::new();
    for v in [-68.0f64, -68.0, -68.0, 0.0] {
        payload.extend_from_slice(&v.to_bits().to_le_bytes());
    }
    let d = decode(user(b"Tone", &payload)).unwrap();
    match d.root {
        Value::Tone(t) => {
            assert_eq!(t.red, (-68.0f64).to_bits());
            assert_eq!(t.green, (-68.0f64).to_bits());
            assert_eq!(t.blue, (-68.0f64).to_bits());
            assert_eq!(t.gray, 0.0f64.to_bits());
        },
        other => panic!("expected a tone, got {:?}", other),
    }
}

#[test]
fn records_can_be_link_targets() {
    // [Color, @1]: slot 0 is the array, slot 1 the color
    let mut payload = Vec::new();
    for _ in 0..4 {
        payload.extend_from_slice(&0u64.to_le_bytes());
    }
    let color = user(b"Color", &payload);
    let input = bytes(&[b"[", &encode_fixnum(2), &color, b"@", &encode_fixnum(1)]);
    let d = decode(input).unwrap();
    match &d.root {
        Value::Array(elems) => {
            assert!(matches!(elems[0], Value::Color(_)));
            assert_eq!(elems[1], Value::Link(1));
        },
        other => panic!("expected an array, got {:?}", other),
    }
    assert!(matches!(d.resolve_link(1), Some(Value::Color(_))));
}

#[test]
fn unsupported_user_defined_name_is_rejected_with_the_name() {
    let e = decode(user(b"Bitmap", &[])).unwrap_err();
    assert_eq!(e.kind, ErrorKind::UnsupportedUserDefinedType(b"Bitmap".to_vec()));
    // the offset names the record's tag
    assert_eq!(e.offset, 0);
}

#[test]
fn user_defined_name_may_come_through_a_symlink() {
    // [:Table, u;0 ...]
    let payload = table_payload(0, 0, 0, 0, &[]);
    let rec = bytes(&[b"u", b";", &encode_fixnum(0), &encode_fixnum(payload.len() as i32), &payload]);
    let input = bytes(&[b"[", &encode_fixnum(2), &sym(b"Table"), &rec]);
    let d = decode(input).unwrap();
    match &d.root {
        Value::Array(elems) => {
            assert!(matches!(elems[1], Value::Table(_)));
        },
        other => panic!("expected an array, got {:?}", other),
    }
}

#[test]
fn truncated_color_payload_is_eof() {
    let input = bytes(&[b"u", &sym(b"Color"), &encode_fixnum(32), &[0u8; 16]]);
    let e = decode(input).unwrap_err();
    assert_eq!(e.kind, ErrorKind::UnexpectedEof);
}

#[test]
fn truncated_table_cells_are_eof() {
    let payload = table_payload(1, 1, 3, 3, &[1]);
    let e = decode(user(b"Table", &payload)).unwrap_err();
    assert_eq!(e.kind, ErrorKind::UnexpectedEof);
}
