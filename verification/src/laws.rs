//! The laws of the decoder and of the renderer, stated over the whole input
//! space and proved once and for all: scalar decoding inverts encoding, the
//! `End` sentinel closes a compound without joining it, empty lists decode
//! and render to their fixed shapes, unrecognized kinds consume nothing,
//! and string payloads render with their text untouched.
//!
//! The decoding laws are stated over the spec decoder. Each reader in
//! [`crate::nbt`] ensures that its result and its cursor equal exactly what
//! the spec decoder gives — on success and on failure alike — so every law
//! here carries word for word to the executable decoder.

use vstd::prelude::*;

use crate::nbt::{
    NodeV, TagV, spec_compound, spec_i32_at, spec_list, spec_list_elems, spec_payload, spec_tag,
    spec_u16_at, spec_u32_at, spec_u64_at,
};
use crate::snbt::{
    indent_text, nodes_height, payload_height, spec_payload_snbt, tag_height, tags_height,
};

verus! {

broadcast use vstd::seq::group_seq_axioms;

/// The little-endian bytes of a 16-bit value: the scalar encoding the
/// round-trip laws speak of.
pub open spec fn le16_bytes(x: u16) -> Seq<u8> {
    seq![(x & 0xff) as u8, ((x >> 8) & 0xff) as u8]
}

/// The little-endian bytes of a 32-bit value.
pub open spec fn le32_bytes(x: u32) -> Seq<u8> {
    seq![
        (x & 0xff) as u8,
        ((x >> 8) & 0xff) as u8,
        ((x >> 16) & 0xff) as u8,
        ((x >> 24) & 0xff) as u8,
    ]
}

/// The little-endian bytes of a 64-bit value.
pub open spec fn le64_bytes(x: u64) -> Seq<u8> {
    seq![
        (x & 0xff) as u8,
        ((x >> 8) & 0xff) as u8,
        ((x >> 16) & 0xff) as u8,
        ((x >> 24) & 0xff) as u8,
        ((x >> 32) & 0xff) as u8,
        ((x >> 40) & 0xff) as u8,
        ((x >> 48) & 0xff) as u8,
        ((x >> 56) & 0xff) as u8,
    ]
}

/// Reading back the little-endian bytes of a 16-bit value gives the value.
pub proof fn lemma_u16_at_le_bytes(x: u16)
    ensures
        spec_u16_at(le16_bytes(x), 0) == x,
{
    let s = le16_bytes(x);
    assert(((((x & 0xff) as u8) as u16) | ((((x >> 8) & 0xff) as u8) as u16) << 8) == x)
        by (bit_vector);
    assert(spec_u16_at(s, 0) == x);
}

/// Reading back the little-endian bytes of a 32-bit value gives the value.
pub proof fn lemma_u32_at_le_bytes(x: u32)
    ensures
        spec_u32_at(le32_bytes(x), 0) == x,
{
    let s = le32_bytes(x);
    assert(((((x & 0xff) as u8) as u32) | ((((x >> 8) & 0xff) as u8) as u32) << 8 | ((((x >> 16)
        & 0xff) as u8) as u32) << 16 | ((((x >> 24) & 0xff) as u8) as u32) << 24) == x)
        by (bit_vector);
    assert(spec_u32_at(s, 0) == x);
}

/// Reading back the little-endian bytes of a 64-bit value gives the value.
pub proof fn lemma_u64_at_le_bytes(x: u64)
    ensures
        spec_u64_at(le64_bytes(x), 0) == x,
{
    let s = le64_bytes(x);
    assert(((((x & 0xff) as u8) as u64) | ((((x >> 8) & 0xff) as u8) as u64) << 8 | ((((x >> 16)
        & 0xff) as u8) as u64) << 16 | ((((x >> 24) & 0xff) as u8) as u64) << 24 | ((((x >> 32)
        & 0xff) as u8) as u64) << 32 | ((((x >> 40) & 0xff) as u8) as u64) << 40 | ((((x >> 48)
        & 0xff) as u8) as u64) << 48 | ((((x >> 56) & 0xff) as u8) as u64) << 56) == x)
        by (bit_vector);
    assert(spec_u64_at(s, 0) == x);
}

/// Law: a 1-byte scalar decodes back to the value it encodes, for every
/// value.
pub proof fn lemma_byte_round_trip(v: i8)
    ensures
        spec_payload(seq![v as u8], 0, 1) == Some((NodeV::Byte(v), 1int)),
{
    assert((v as u8) as i8 == v) by (bit_vector);
}

/// Law: a 2-byte scalar decodes back to the value whose little-endian
/// encoding was read, for every value.
pub proof fn lemma_short_round_trip(v: i16)
    ensures
        spec_payload(le16_bytes(v as u16), 0, 2) == Some((NodeV::Short(v), 2int)),
{
    lemma_u16_at_le_bytes(v as u16);
    assert((v as u16) as i16 == v) by (bit_vector);
}

/// Law: a 4-byte scalar decodes back to the value whose little-endian
/// encoding was read, for every value.
pub proof fn lemma_int_round_trip(v: i32)
    ensures
        spec_payload(le32_bytes(v as u32), 0, 3) == Some((NodeV::Int(v), 4int)),
{
    lemma_u32_at_le_bytes(v as u32);
    assert((v as u32) as i32 == v) by (bit_vector);
}

/// Law: an 8-byte scalar decodes back to the value whose little-endian
/// encoding was read, for every value.
pub proof fn lemma_long_round_trip(v: i64)
    ensures
        spec_payload(le64_bytes(v as u64), 0, 4) == Some((NodeV::Long(v), 8int)),
{
    lemma_u64_at_le_bytes(v as u64);
    assert((v as u64) as i64 == v) by (bit_vector);
}

/// Law: a 4-byte floating-point payload decodes back to the bit pattern
/// whose little-endian encoding was read, for every bit pattern.
pub proof fn lemma_float_round_trip(bits: u32)
    ensures
        spec_payload(le32_bytes(bits), 0, 5) == Some((NodeV::Float(bits), 4int)),
{
    lemma_u32_at_le_bytes(bits);
}

/// Law: an 8-byte floating-point payload decodes back to the bit pattern
/// whose little-endian encoding was read, for every bit pattern.
pub proof fn lemma_double_round_trip(bits: u64)
    ensures
        spec_payload(le64_bytes(bits), 0, 6) == Some((NodeV::Double(bits), 8int)),
{
    lemma_u64_at_le_bytes(bits);
}

/// Law: an `End` header at the top level of a compound terminates the
/// compound's child list right there, consuming the one sentinel byte and
/// keeping no child for it.
pub proof fn lemma_end_terminates_compound(s: Seq<u8>, pos: int)
    requires
        0 <= pos < s.len(),
        s[pos] == 0,
    ensures
        spec_compound(s, pos) == Some((Seq::<TagV>::empty(), pos + 1)),
{
}

/// Law: a list payload whose count is zero or negative decodes to the empty
/// sequence, whatever its element kind, consuming the kind byte and the
/// count alone.
pub proof fn lemma_empty_list_decodes(s: Seq<u8>, pos: int)
    requires
        0 <= pos,
        pos + 5 <= s.len(),
        spec_i32_at(s, pos + 1) <= 0,
    ensures
        spec_payload(s, pos, 9) == Some((NodeV::List(Seq::empty()), pos + 5)),
{
    assert(crate::nbt::spec_list_elems(s, pos + 5, s[pos] as i8, 0) == Some(
        (Seq::<NodeV>::empty(), pos + 5),
    ));
    assert(crate::nbt::spec_list(s, pos) == Some((Seq::<NodeV>::empty(), pos + 5)));
}

/// Law: an empty list renders as its brackets and newlines alone — an
/// opening bracket, the element indentation with nothing after it, and the
/// closing bracket at the parent's indentation.
pub proof fn lemma_empty_list_renders(depth: nat)
    ensures
        spec_payload_snbt(NodeV::List(Seq::empty()), depth) == seq!['[', '\n'] + indent_text(
            depth + 1,
        ) + seq!['\n'] + indent_text(depth) + seq![']'],
{
    assert(spec_payload_snbt(NodeV::List(Seq::empty()), depth) =~= seq!['[', '\n'] + indent_text(
        depth + 1,
    ) + seq!['\n'] + indent_text(depth) + seq![']']);
}

/// Law: any kind code outside the recognized set 1..=11 — the `End`
/// sentinel included — decodes to `Unknown` and consumes no byte, so the
/// decoder can go on with whatever follows.
pub proof fn lemma_unknown_kind_consumes_nothing(s: Seq<u8>, pos: int, kind: i8)
    requires
        0 <= pos <= s.len(),
        kind < 1 || kind > 11,
    ensures
        spec_payload(s, pos, kind) == Some((NodeV::Unknown, pos)),
{
}

/// Law: a string payload renders as its text between two double quotes,
/// with nothing escaped — an embedded double quote stays as it is.
pub proof fn lemma_string_renders_unescaped(t: Seq<char>, depth: nat)
    ensures
        spec_payload_snbt(NodeV::String(t), depth) == seq!['"'] + t + seq!['"'],
{
}

/// Law: a decoded payload opens no more nesting levels than the bytes it
/// consumed — each level costs at least one byte of input.
pub proof fn lemma_payload_height_bounded(s: Seq<u8>, pos: int, kind: i8)
    ensures
        (match spec_payload(s, pos, kind) {
            Some((p, end)) => pos <= end <= s.len() && payload_height(p) <= end - pos,
            None => true,
        }),
    decreases s.len() - pos, 0nat, 2nat,
{
    if 0 <= pos <= s.len() {
        if kind == 9 {
            lemma_list_height_bounded(s, pos);
        } else if kind == 10 {
            lemma_compound_height_bounded(s, pos);
        }
    }
}

/// Law: the elements of a decoded list stand no higher than the count of
/// bytes they consumed.
pub proof fn lemma_list_height_bounded(s: Seq<u8>, pos: int)
    ensures
        (match spec_list(s, pos) {
            Some((es, end)) => pos + 5 <= end <= s.len() && nodes_height(es) <= end - (pos + 5),
            None => true,
        }),
    decreases s.len() - pos, 0nat, 1nat,
{
    if 0 <= pos && pos + 5 <= s.len() {
        let ekind = s[pos] as i8;
        let c = spec_i32_at(s, pos + 1);
        let n: nat = if c <= 0 {
            0
        } else {
            c as nat
        };
        lemma_list_elems_height_bounded(s, pos + 5, ekind, n);
    }
}

/// Law: a decoded run of bare payloads stands no higher than the count of
/// bytes it consumed.
pub proof fn lemma_list_elems_height_bounded(s: Seq<u8>, pos: int, kind: i8, n: nat)
    ensures
        (match spec_list_elems(s, pos, kind, n) {
            Some((es, end)) => pos <= end <= s.len() && nodes_height(es) <= end - pos,
            None => true,
        }),
    decreases s.len() - pos, n, 0nat,
{
    if 0 <= pos <= s.len() && n > 0 {
        lemma_payload_height_bounded(s, pos, kind);
        match spec_payload(s, pos, kind) {
            None => {},
            Some((p, e1)) => {
                if pos <= e1 <= s.len() {
                    lemma_list_elems_height_bounded(s, e1, kind, (n - 1) as nat);
                    match spec_list_elems(s, e1, kind, (n - 1) as nat) {
                        None => {},
                        Some((rest, end)) => {
                            assert((seq![p] + rest)[0] == p);
                            assert((seq![p] + rest).drop_first() =~= rest);
                        },
                    }
                }
            },
        }
    }
}

/// Law: the children of a decoded compound stand no higher than the count
/// of bytes before its `End` sentinel.
pub proof fn lemma_compound_height_bounded(s: Seq<u8>, pos: int)
    ensures
        (match spec_compound(s, pos) {
            Some((ts, end)) => pos < end <= s.len() && tags_height(ts) <= end - pos - 1,
            None => true,
        }),
    decreases s.len() - pos, 0nat, 1nat,
{
    if 0 <= pos <= s.len() {
        match crate::nbt::spec_header(s, pos) {
            None => {},
            Some((kind, name, p1)) => {
                if kind == 0 {
                    assert(tags_height(Seq::<TagV>::empty()) == 0);
                } else if pos < p1 <= s.len() {
                    match spec_payload(s, p1, kind) {
                        None => {},
                        Some((pl, p2)) => {
                            if pos < p2 <= s.len() {
                                lemma_payload_height_bounded(s, p1, kind);
                                lemma_compound_height_bounded(s, p2);
                                match spec_compound(s, p2) {
                                    None => {},
                                    Some((rest, end)) => {
                                        let t = TagV { name, payload: pl };
                                        assert((seq![t] + rest)[0] == t);
                                        assert((seq![t] + rest).drop_first() =~= rest);
                                        assert(tag_height(t) == payload_height(pl));
                                        assert(tags_height(seq![t] + rest) <= end - pos - 1);
                                    },
                                }
                            }
                        },
                    }
                }
            },
        }
    }
}

/// Law: a decoded tag opens no more nesting levels than the bytes it
/// consumed, header included.
pub proof fn lemma_tag_height_bounded(s: Seq<u8>, pos: int)
    ensures
        (match spec_tag(s, pos) {
            Some((t, end)) => pos < end <= s.len() && tag_height(t) <= end - pos,
            None => true,
        }),
{
    if 0 <= pos <= s.len() {
        match crate::nbt::spec_header(s, pos) {
            None => {},
            Some((kind, name, p1)) => {
                if pos < p1 <= s.len() {
                    lemma_payload_height_bounded(s, p1, kind);
                }
            },
        }
    }
}

} // verus!
