use nbt_snbt::nbt::{NbtError, Tag, TagPayload, TagReader};

/// Bytes of a tag header: the kind code, then the length-prefixed name.
fn header(kind: u8, name: &str) -> Vec<u8> {
    let mut v = vec![kind];
    let len = name.len() as u16;
    v.extend_from_slice(&len.to_le_bytes());
    v.extend_from_slice(name.as_bytes());
    v
}

fn decode(bytes: &[u8]) -> Tag {
    let mut r = TagReader::new(bytes);
    r.read_tag().expect("decode failed")
}

#[test]
fn byte_scalar_round_trips() {
    for v in [0i8, -1, 42, i8::MIN, i8::MAX] {
        let mut bytes = header(1, "");
        bytes.push(v as u8);
        let t = decode(&bytes);
        assert!(matches!(t.payload, TagPayload::Byte(x) if x == v));
        assert_eq!(t.name.as_deref(), Some(""));
    }
}

#[test]
fn short_scalar_round_trips() {
    for v in [0i16, -1, 300, i16::MIN, i16::MAX] {
        let mut bytes = header(2, "s");
        bytes.extend_from_slice(&v.to_le_bytes());
        let t = decode(&bytes);
        assert!(matches!(t.payload, TagPayload::Short(x) if x == v));
    }
}

#[test]
fn int_scalar_round_trips() {
    for v in [0i32, -1, 123456, i32::MIN, i32::MAX] {
        let mut bytes = header(3, "i");
        bytes.extend_from_slice(&v.to_le_bytes());
        let t = decode(&bytes);
        assert!(matches!(t.payload, TagPayload::Int(x) if x == v));
    }
}

#[test]
fn long_scalar_round_trips() {
    for v in [0i64, -1, 1 << 40, i64::MIN, i64::MAX] {
        let mut bytes = header(4, "l");
        bytes.extend_from_slice(&v.to_le_bytes());
        let t = decode(&bytes);
        assert!(matches!(t.payload, TagPayload::Long(x) if x == v));
    }
}

#[test]
fn float_scalar_round_trips() {
    for v in [0.0f32, -1.25, 1.5, f32::MIN, f32::MAX] {
        let mut bytes = header(5, "f");
        bytes.extend_from_slice(&v.to_le_bytes());
        let t = decode(&bytes);
        assert!(matches!(t.payload, TagPayload::Float(b) if b == v.to_bits()));
    }
}

#[test]
fn double_scalar_round_trips() {
    for v in [0.0f64, -1.25, 2.5, f64::MIN, f64::MAX] {
        let mut bytes = header(6, "d");
        bytes.extend_from_slice(&v.to_le_bytes());
        let t = decode(&bytes);
        assert!(matches!(t.payload, TagPayload::Double(b) if b == v.to_bits()));
    }
}

#[test]
fn string_payload_decodes() {
    let mut bytes = header(8, "txt");
    bytes.extend_from_slice(&3u16.to_le_bytes());
    bytes.extend_from_slice(b"abc");
    let t = decode(&bytes);
    assert!(matches!(t.payload, TagPayload::String(ref s) if s == "abc"));
}

#[test]
fn invalid_utf8_is_replaced_not_refused() {
    let mut bytes = header(8, "bad");
    bytes.extend_from_slice(&2u16.to_le_bytes());
    bytes.extend_from_slice(&[0xC3, 0x28]);
    let t = decode(&bytes);
    assert!(matches!(t.payload, TagPayload::String(ref s) if s == "\u{FFFD}("));
}

#[test]
fn end_header_terminates_compound_without_a_child() {
    let mut bytes = header(10, "root");
    bytes.push(0);
    let t = decode(&bytes);
    match t.payload {
        TagPayload::Compound(children) => assert!(children.is_empty()),
        _ => panic!("expected a compound"),
    }
}

#[test]
fn end_header_as_root_gives_unnamed_unknown() {
    let t = decode(&[0]);
    assert!(t.name.is_none());
    assert!(matches!(t.payload, TagPayload::Unknown));
}

#[test]
fn compound_with_one_byte_child() {
    // kind=Compound, name "", then Byte named "hp" with value 42, then End.
    let mut bytes = header(10, "");
    bytes.extend_from_slice(&header(1, "hp"));
    bytes.push(42);
    bytes.push(0);
    let t = decode(&bytes);
    match t.payload {
        TagPayload::Compound(children) => {
            assert_eq!(children.len(), 1);
            assert_eq!(children[0].name.as_deref(), Some("hp"));
            assert!(matches!(children[0].payload, TagPayload::Byte(42)));
        },
        _ => panic!("expected a compound"),
    }
}

#[test]
fn unknown_kind_consumes_nothing_and_siblings_continue() {
    // A compound with a child of kind 99 (Unknown, no payload bytes), then a
    // byte child that must still be read correctly.
    let mut bytes = header(10, "");
    bytes.extend_from_slice(&header(99, "odd"));
    bytes.extend_from_slice(&header(1, "b"));
    bytes.push(7);
    bytes.push(0);
    let t = decode(&bytes);
    match t.payload {
        TagPayload::Compound(children) => {
            assert_eq!(children.len(), 2);
            assert_eq!(children[0].name.as_deref(), Some("odd"));
            assert!(matches!(children[0].payload, TagPayload::Unknown));
            assert_eq!(children[1].name.as_deref(), Some("b"));
            assert!(matches!(children[1].payload, TagPayload::Byte(7)));
        },
        _ => panic!("expected a compound"),
    }
}

#[test]
fn list_of_zero_elements_decodes_empty() {
    let mut bytes = header(9, "");
    bytes.push(3);
    bytes.extend_from_slice(&0i32.to_le_bytes());
    let t = decode(&bytes);
    match t.payload {
        TagPayload::List(elems) => assert!(elems.is_empty()),
        _ => panic!("expected a list"),
    }
}

#[test]
fn negative_counts_give_empty_sequences() {
    let mut bytes = header(7, "ba");
    bytes.extend_from_slice(&(-1i32).to_le_bytes());
    let t = decode(&bytes);
    assert!(matches!(t.payload, TagPayload::ByteArray(ref v) if v.is_empty()));

    let mut bytes = header(11, "ia");
    bytes.extend_from_slice(&(-5i32).to_le_bytes());
    let t = decode(&bytes);
    assert!(matches!(t.payload, TagPayload::IntArray(ref v) if v.is_empty()));

    let mut bytes = header(9, "li");
    bytes.push(3);
    bytes.extend_from_slice(&(-2i32).to_le_bytes());
    let t = decode(&bytes);
    assert!(matches!(t.payload, TagPayload::List(ref v) if v.is_empty()));
}

#[test]
fn arrays_decode_in_order() {
    let mut bytes = header(7, "ba");
    bytes.extend_from_slice(&3i32.to_le_bytes());
    bytes.extend_from_slice(&[1, 0xFF, 3]);
    let t = decode(&bytes);
    match t.payload {
        TagPayload::ByteArray(v) => assert_eq!(v, vec![1, -1, 3]),
        _ => panic!("expected a byte array"),
    }

    let mut bytes = header(11, "ia");
    bytes.extend_from_slice(&3i32.to_le_bytes());
    for x in [-1i32, 0, i32::MAX] {
        bytes.extend_from_slice(&x.to_le_bytes());
    }
    let t = decode(&bytes);
    match t.payload {
        TagPayload::IntArray(v) => assert_eq!(v, vec![-1, 0, i32::MAX]),
        _ => panic!("expected an int array"),
    }
}

#[test]
fn list_of_shorts_decodes_in_order() {
    let mut bytes = header(9, "li");
    bytes.push(2);
    bytes.extend_from_slice(&2i32.to_le_bytes());
    bytes.extend_from_slice(&(-7i16).to_le_bytes());
    bytes.extend_from_slice(&(8i16).to_le_bytes());
    let t = decode(&bytes);
    match t.payload {
        TagPayload::List(elems) => {
            assert_eq!(elems.len(), 2);
            assert!(matches!(elems[0], TagPayload::Short(-7)));
            assert!(matches!(elems[1], TagPayload::Short(8)));
        },
        _ => panic!("expected a list"),
    }
}

#[test]
fn truncated_inputs_fail_with_unexpected_end() {
    let cases: Vec<Vec<u8>> = vec![
        vec![],
        vec![1],
        vec![1, 2, 0, b'h'],
        header(1, "b"),
        header(3, "i"),
        {
            let mut b = header(10, "");
            b.extend_from_slice(&header(1, "x"));
            b.push(1);
            b // compound never terminated
        },
        {
            let mut b = header(7, "ba");
            b.extend_from_slice(&5i32.to_le_bytes());
            b.extend_from_slice(&[1, 2]);
            b // array shorter than its count
        },
        {
            let mut b = header(8, "s");
            b.extend_from_slice(&4u16.to_le_bytes());
            b.extend_from_slice(b"ab");
            b // string shorter than its length
        },
    ];
    for bytes in cases {
        let mut r = TagReader::new(&bytes);
        match r.read_tag() {
            Err(NbtError::UnexpectedEnd) => {},
            Ok(_) => panic!("expected a failure on truncated input {:?}", bytes),
        }
    }
}

#[test]
fn reader_stops_after_one_tag() {
    // Two byte tags back to back: each read consumes exactly one.
    let mut bytes = header(1, "a");
    bytes.push(1);
    bytes.extend_from_slice(&header(1, "b"));
    bytes.push(2);
    let mut r = TagReader::new(&bytes);
    let first = r.read_tag().expect("first tag");
    assert_eq!(first.name.as_deref(), Some("a"));
    assert!(matches!(first.payload, TagPayload::Byte(1)));
    let second = r.read_tag().expect("second tag");
    assert_eq!(second.name.as_deref(), Some("b"));
    assert!(matches!(second.payload, TagPayload::Byte(2)));
    assert!(matches!(r.read_tag(), Err(NbtError::UnexpectedEnd)));
}

#[test]
fn read_header_reads_kind_and_name() {
    let bytes = header(3, "abc");
    let mut r = TagReader::new(&bytes);
    let h = r.read_header().expect("header");
    assert_eq!(h.kind, 3);
    assert_eq!(h.name.as_deref(), Some("abc"));

    let bytes = [0u8];
    let mut r = TagReader::new(&bytes);
    let h = r.read_header().expect("header");
    assert_eq!(h.kind, 0);
    assert!(h.name.is_none());
}

#[test]
fn failed_read_consumes_nothing() {
    // The header is complete but the value byte is missing: the read fails
    // and puts the cursor back at the start, so a second read fails the
    // same way and the header is still there to be read in full.
    let bytes = header(1, "a");
    let mut r = TagReader::new(&bytes);
    assert!(matches!(r.read_tag(), Err(NbtError::UnexpectedEnd)));
    assert!(matches!(r.read_tag(), Err(NbtError::UnexpectedEnd)));
    let h = r.read_header().expect("header");
    assert_eq!(h.kind, 1);
    assert_eq!(h.name.as_deref(), Some("a"));
}
