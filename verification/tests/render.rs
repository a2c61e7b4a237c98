use nbt_snbt::nbt::{Tag, TagPayload, TagReader};
use nbt_snbt::snbt::{ToSnbt, depth_to_string};

/// Bytes of a tag header: the kind code, then the length-prefixed name.
fn header(kind: u8, name: &str) -> Vec<u8> {
    let mut v = vec![kind];
    let len = name.len() as u16;
    v.extend_from_slice(&len.to_le_bytes());
    v.extend_from_slice(name.as_bytes());
    v
}

fn decode(bytes: &[u8]) -> Tag {
    let mut r = TagReader::new(bytes);
    r.read_tag().expect("decode failed")
}

#[test]
fn indentation_is_four_spaces_per_level() {
    assert_eq!(depth_to_string(0), "");
    assert_eq!(depth_to_string(1), "    ");
    assert_eq!(depth_to_string(3), "            ");
}

#[test]
fn scalars_carry_their_suffixes() {
    assert_eq!(TagPayload::Byte(42).to_snbt(0), "42B");
    assert_eq!(TagPayload::Byte(-1).to_snbt(0), "-1B");
    assert_eq!(TagPayload::Short(7).to_snbt(0), "7S");
    assert_eq!(TagPayload::Int(3).to_snbt(0), "3");
    assert_eq!(TagPayload::Int(i32::MIN).to_snbt(0), "-2147483648");
    assert_eq!(TagPayload::Long(-5).to_snbt(0), "-5L");
    assert_eq!(TagPayload::Long(i64::MIN).to_snbt(0), "-9223372036854775808L");
    assert_eq!(TagPayload::Long(i64::MAX).to_snbt(0), "9223372036854775807L");
}

#[test]
fn floats_render_in_shortest_decimal_form() {
    assert_eq!(TagPayload::Float(1.5f32.to_bits()).to_snbt(0), "1.5F");
    assert_eq!(TagPayload::Float(0.1f32.to_bits()).to_snbt(0), "0.1F");
    assert_eq!(TagPayload::Float((-2.0f32).to_bits()).to_snbt(0), "-2F");
    assert_eq!(TagPayload::Double(2.5f64.to_bits()).to_snbt(0), "2.5D");
    assert_eq!(TagPayload::Double(0.0f64.to_bits()).to_snbt(0), "0D");
}

#[test]
fn int_array_renders_exactly() {
    let p = TagPayload::IntArray(vec![-1, 0, 2147483647]);
    assert_eq!(p.to_snbt(0), "[I;-1, 0, 2147483647]");
    assert_eq!(TagPayload::IntArray(vec![]).to_snbt(0), "[I;]");
}

#[test]
fn byte_array_renders_with_suffixed_elements() {
    let p = TagPayload::ByteArray(vec![1, -2]);
    assert_eq!(p.to_snbt(0), "[B;1B, -2B]");
    assert_eq!(TagPayload::ByteArray(vec![]).to_snbt(0), "[B;]");
}

#[test]
fn string_renders_quoted_and_unescaped() {
    let p = TagPayload::String(String::from("a\"b"));
    assert_eq!(p.to_snbt(0), "\"a\"b\"");
    let p = TagPayload::String(String::from("line\nbreak"));
    assert_eq!(p.to_snbt(0), "\"line\nbreak\"");
}

#[test]
fn unknown_renders_as_bare_word() {
    assert_eq!(TagPayload::Unknown.to_snbt(0), "unknown");
}

#[test]
fn named_tag_renders_with_indent_and_colon() {
    let t = Tag { name: Some(String::from("x")), payload: TagPayload::Int(1) };
    assert_eq!(t.to_snbt(0), "x: 1");
    assert_eq!(t.to_snbt(1), "    x: 1");
}

#[test]
fn unnamed_and_empty_named_tags_render_bare() {
    let t = Tag { name: None, payload: TagPayload::Int(1) };
    assert_eq!(t.to_snbt(2), "1");
    let t = Tag { name: Some(String::new()), payload: TagPayload::Int(1) };
    assert_eq!(t.to_snbt(2), "1");
}

#[test]
fn empty_compound_renders_as_braces_and_blank_line() {
    assert_eq!(TagPayload::Compound(vec![]).to_snbt(0), "{\n\n}");
}

#[test]
fn empty_list_renders_with_no_elements() {
    let mut bytes = header(9, "");
    bytes.push(3);
    bytes.extend_from_slice(&0i32.to_le_bytes());
    let t = decode(&bytes);
    assert_eq!(t.to_snbt(0), "[\n    \n]");
}

#[test]
fn list_elements_sit_on_their_own_indented_lines() {
    let p = TagPayload::List(vec![TagPayload::Int(1), TagPayload::Int(2)]);
    assert_eq!(p.to_snbt(0), "[\n    1,\n    2\n]");
}

#[test]
fn compound_example_renders_exactly() {
    // kind=Compound, name "", then Byte named "hp" value 42, then End.
    let mut bytes = header(10, "");
    bytes.extend_from_slice(&header(1, "hp"));
    bytes.push(42);
    bytes.push(0);
    let t = decode(&bytes);
    assert_eq!(t.to_snbt(0), "{\n    hp: 42B\n}");
}

#[test]
fn structural_round_trip_keeps_order_and_indentation() {
    // A compound with one of each scalar kind, a nested compound, and a
    // list of ints, decoded from bytes and rendered.
    let mut bytes = header(10, "");
    bytes.extend_from_slice(&header(1, "b"));
    bytes.push(1);
    bytes.extend_from_slice(&header(2, "s"));
    bytes.extend_from_slice(&2i16.to_le_bytes());
    bytes.extend_from_slice(&header(3, "i"));
    bytes.extend_from_slice(&3i32.to_le_bytes());
    bytes.extend_from_slice(&header(4, "l"));
    bytes.extend_from_slice(&4i64.to_le_bytes());
    bytes.extend_from_slice(&header(5, "f"));
    bytes.extend_from_slice(&1.5f32.to_le_bytes());
    bytes.extend_from_slice(&header(6, "d"));
    bytes.extend_from_slice(&2.5f64.to_le_bytes());
    bytes.extend_from_slice(&header(10, "c"));
    bytes.extend_from_slice(&header(3, "n"));
    bytes.extend_from_slice(&9i32.to_le_bytes());
    bytes.push(0);
    bytes.extend_from_slice(&header(9, "li"));
    bytes.push(3);
    bytes.extend_from_slice(&2i32.to_le_bytes());
    bytes.extend_from_slice(&1i32.to_le_bytes());
    bytes.extend_from_slice(&2i32.to_le_bytes());
    bytes.push(0);

    let t = decode(&bytes);
    let expected = "{\n    b: 1B,\n    s: 2S,\n    i: 3,\n    l: 4L,\n    f: 1.5F,\n    d: 2.5D,\n    c: {\n        n: 9\n    },\n    li: [\n        1,\n        2\n    ]\n}";
    assert_eq!(t.to_snbt(0), expected);
}

#[test]
fn decode_and_render_runs_the_whole_pipeline() {
    let mut bytes = header(10, "");
    bytes.extend_from_slice(&header(1, "hp"));
    bytes.push(42);
    bytes.push(0);
    let text = nbt_snbt::snbt::decode_and_render(&bytes).expect("pipeline failed");
    assert_eq!(text, "{\n    hp: 42B\n}");
}

#[test]
fn decode_and_render_reports_truncated_input() {
    let bytes = header(3, "i");
    assert!(nbt_snbt::snbt::decode_and_render(&bytes).is_err());
}
