//! The tree-to-text renderer.
//!
//! Rendering is a pure function of the tag tree: nesting shows as 4-space
//! indentation, every scalar carries the type suffix of the source format's
//! literal syntax, and strings are wrapped in double quotes with their text
//! kept as it is — embedded quotes and control characters are not escaped.

use vstd::prelude::*;
use vstd::string::StringExecFns;

use crate::nbt::{
    NbtError, NodeV, Tag, TagPayload, TagReader, TagV, payloads_view, spec_tag, tag_view,
    tags_view,
};

verus! {

broadcast use vstd::seq::group_seq_axioms;

/// The decimal digit character for `d` in 0..=9.
pub open spec fn dec_digit(d: int) -> char {
    ((48 + d) as u8) as char
}

/// The decimal digits of `n`, most significant first, no sign and no
/// leading zeros (a single `0` for zero).
pub open spec fn dec_rep(n: nat) -> Seq<char>
    decreases n,
{
    if n < 10 {
        seq![dec_digit(n as int)]
    } else {
        dec_rep(n / 10) + seq![dec_digit((n % 10) as int)]
    }
}

/// The decimal text of `v`: a minus sign for negative values, then the
/// digits of its magnitude.
pub open spec fn int_text(v: int) -> Seq<char> {
    if v < 0 {
        seq!['-'] + dec_rep((-v) as nat)
    } else {
        dec_rep(v as nat)
    }
}

/// The indentation of a nesting level: four spaces per level.
pub open spec fn indent_text(depth: nat) -> Seq<char>
    decreases depth,
{
    if depth == 0 {
        Seq::empty()
    } else {
        indent_text((depth - 1) as nat) + seq![' ', ' ', ' ', ' ']
    }
}

/// The decimal text of the 4-byte floating-point value with the given
/// little-endian bit pattern. Left uninterpreted: the trusted wrapper
/// [`float_to_string`] is the one place that computes it.
pub uninterp spec fn float_text(bits: u32) -> Seq<char>;

/// The decimal text of the 8-byte floating-point value with the given
/// little-endian bit pattern. Left uninterpreted: the trusted wrapper
/// [`double_to_string`] is the one place that computes it.
pub uninterp spec fn double_text(bits: u64) -> Seq<char>;

/// Relies on byteorder's `LittleEndian::read_f32` (the 4-byte float with the
/// given little-endian bit pattern) and on std's default `Display` for the
/// value it returns (its shortest round-trippable decimal form): the text is
/// a function of the bits alone. The result is named [`float_text`].
#[verifier::external_body]
fn float_to_string(bits: u32) -> (r: String)
    ensures
        r@ == float_text(bits),
{
    format!("{}", <byteorder::LittleEndian as byteorder::ByteOrder>::read_f32(&bits.to_le_bytes()))
}

/// Relies on byteorder's `LittleEndian::read_f64` (the 8-byte float with the
/// given little-endian bit pattern) and on std's default `Display` for the
/// value it returns (its shortest round-trippable decimal form): the text is
/// a function of the bits alone. The result is named [`double_text`].
#[verifier::external_body]
fn double_to_string(bits: u64) -> (r: String)
    ensures
        r@ == double_text(bits),
{
    format!("{}", <byteorder::LittleEndian as byteorder::ByteOrder>::read_f64(&bits.to_le_bytes()))
}

/// How many nesting levels a payload opens below itself: composites add one
/// for their children, everything else none.
pub open spec fn payload_height(p: NodeV) -> nat
    decreases p,
{
    match p {
        NodeV::Compound(ts) => 1 + tags_height(ts),
        NodeV::List(es) => 1 + nodes_height(es),
        _ => 0,
    }
}

/// The height of a tag is the height of its payload.
pub open spec fn tag_height(t: TagV) -> nat
    decreases t,
{
    payload_height(t.payload)
}

/// The greatest height among a compound's children.
pub open spec fn tags_height(ts: Seq<TagV>) -> nat
    decreases ts,
{
    if ts.len() == 0 {
        0
    } else {
        let h0 = tag_height(ts[0]);
        let hr = tags_height(ts.drop_first());
        if h0 >= hr {
            h0
        } else {
            hr
        }
    }
}

/// The greatest height among a list's elements.
pub open spec fn nodes_height(es: Seq<NodeV>) -> nat
    decreases es,
{
    if es.len() == 0 {
        0
    } else {
        let h0 = payload_height(es[0]);
        let hr = nodes_height(es.drop_first());
        if h0 >= hr {
            h0
        } else {
            hr
        }
    }
}

/// The text of a tag at a nesting depth: `<indent><name>: <payload>` when
/// the name is present and non-empty, the bare payload text otherwise.
pub open spec fn spec_tag_snbt(t: TagV, depth: nat) -> Seq<char>
    decreases t,
{
    match t.name {
        Some(name) => if name.len() > 0 {
            indent_text(depth) + name + seq![':', ' '] + spec_payload_snbt(t.payload, depth)
        } else {
            spec_payload_snbt(t.payload, depth)
        },
        None => spec_payload_snbt(t.payload, depth),
    }
}

/// The text of a payload at a nesting depth.
pub open spec fn spec_payload_snbt(p: NodeV, depth: nat) -> Seq<char>
    decreases p,
{
    match p {
        NodeV::Compound(ts) => seq!['{', '\n'] + spec_tags_snbt(ts, depth + 1) + seq!['\n']
            + indent_text(depth) + seq!['}'],
        NodeV::List(es) => seq!['[', '\n'] + indent_text(depth + 1) + spec_nodes_snbt(
            es,
            depth + 1,
        ) + seq!['\n'] + indent_text(depth) + seq![']'],
        NodeV::IntArray(v) => seq!['[', 'I', ';'] + spec_ints_text(v) + seq![']'],
        NodeV::ByteArray(v) => seq!['[', 'B', ';'] + spec_sbytes_text(v) + seq![']'],
        NodeV::Byte(x) => int_text(x as int) + seq!['B'],
        NodeV::Short(x) => int_text(x as int) + seq!['S'],
        NodeV::Int(x) => int_text(x as int),
        NodeV::Long(x) => int_text(x as int) + seq!['L'],
        NodeV::Float(b) => float_text(b) + seq!['F'],
        NodeV::Double(b) => double_text(b) + seq!['D'],
        NodeV::String(s) => seq!['"'] + s + seq!['"'],
        NodeV::Unknown => seq!['u', 'n', 'k', 'n', 'o', 'w', 'n'],
    }
}

/// The children of a compound, each rendered one level deeper than the
/// braces, joined by a comma and a newline.
pub open spec fn spec_tags_snbt(ts: Seq<TagV>, depth: nat) -> Seq<char>
    decreases ts,
{
    if ts.len() == 0 {
        Seq::empty()
    } else if ts.len() == 1 {
        spec_tag_snbt(ts[0], depth)
    } else {
        spec_tag_snbt(ts[0], depth) + seq![',', '\n'] + spec_tags_snbt(ts.drop_first(), depth)
    }
}

/// The elements of a list, joined by a comma, a newline and the
/// indentation of the element depth.
pub open spec fn spec_nodes_snbt(es: Seq<NodeV>, depth: nat) -> Seq<char>
    decreases es,
{
    if es.len() == 0 {
        Seq::empty()
    } else if es.len() == 1 {
        spec_payload_snbt(es[0], depth)
    } else {
        spec_payload_snbt(es[0], depth) + seq![',', '\n'] + indent_text(depth)
            + spec_nodes_snbt(es.drop_first(), depth)
    }
}

/// The elements of an int array, comma-space separated, no suffix.
pub open spec fn spec_ints_text(v: Seq<i32>) -> Seq<char>
    decreases v,
{
    if v.len() == 0 {
        Seq::empty()
    } else if v.len() == 1 {
        int_text(v[0] as int)
    } else {
        int_text(v[0] as int) + seq![',', ' '] + spec_ints_text(v.drop_first())
    }
}

/// The elements of a byte array, comma-space separated, each with a `B`
/// suffix.
pub open spec fn spec_sbytes_text(v: Seq<i8>) -> Seq<char>
    decreases v,
{
    if v.len() == 0 {
        Seq::empty()
    } else if v.len() == 1 {
        int_text(v[0] as int) + seq!['B']
    } else {
        int_text(v[0] as int) + seq!['B'] + seq![',', ' '] + spec_sbytes_text(v.drop_first())
    }
}

/// Rendering a tag tree as text.
pub trait ToSnbt {
    /// The text this value renders to at the given nesting depth.
    spec fn snbt_spec(&self, depth: nat) -> Seq<char>;

    /// The machine bound that rendering needs: each nesting level below this
    /// value adds one to the depth counter, which must not wrap.
    spec fn snbt_ok(&self, depth: nat) -> bool;

    /// Render this value at the given nesting depth.
    fn to_snbt(&self, depth: usize) -> (r: String)
        requires
            self.snbt_ok(depth as nat),
        ensures
            r@ == self.snbt_spec(depth as nat),
    ;
}

/// The indentation of a nesting level: four spaces per level.
pub fn depth_to_string(depth: usize) -> (r: String)
    ensures
        r@ == indent_text(depth as nat),
{
    let mut s = String::new();
    let mut i: usize = 0;
    while i < depth
        invariant
            i <= depth,
            s@ == indent_text(i as nat),
        decreases depth - i,
    {
        s.append("    ");
        i = i + 1;
        proof {
            reveal_strlit("    ");
            assert(s@ =~= indent_text(i as nat));
        }
    }
    s
}

/// Append the digit character for `d`.
fn append_digit(out: &mut String, d: u64)
    requires
        d < 10,
    ensures
        final(out)@ == old(out)@ + seq![dec_digit(d as int)],
{
    if d == 0 {
        out.append("0");
        proof {
            reveal_strlit("0");
            assert(out@ =~= old(out)@ + seq![dec_digit(d as int)]);
        }
    } else if d == 1 {
        out.append("1");
        proof {
            reveal_strlit("1");
            assert(out@ =~= old(out)@ + seq![dec_digit(d as int)]);
        }
    } else if d == 2 {
        out.append("2");
        proof {
            reveal_strlit("2");
            assert(out@ =~= old(out)@ + seq![dec_digit(d as int)]);
        }
    } else if d == 3 {
        out.append("3");
        proof {
            reveal_strlit("3");
            assert(out@ =~= old(out)@ + seq![dec_digit(d as int)]);
        }
    } else if d == 4 {
        out.append("4");
        proof {
            reveal_strlit("4");
            assert(out@ =~= old(out)@ + seq![dec_digit(d as int)]);
        }
    } else if d == 5 {
        out.append("5");
        proof {
            reveal_strlit("5");
            assert(out@ =~= old(out)@ + seq![dec_digit(d as int)]);
        }
    } else if d == 6 {
        out.append("6");
        proof {
            reveal_strlit("6");
            assert(out@ =~= old(out)@ + seq![dec_digit(d as int)]);
        }
    } else if d == 7 {
        out.append("7");
        proof {
            reveal_strlit("7");
            assert(out@ =~= old(out)@ + seq![dec_digit(d as int)]);
        }
    } else if d == 8 {
        out.append("8");
        proof {
            reveal_strlit("8");
            assert(out@ =~= old(out)@ + seq![dec_digit(d as int)]);
        }
    } else {
        out.append("9");
        proof {
            reveal_strlit("9");
            assert(out@ =~= old(out)@ + seq![dec_digit(d as int)]);
        }
    }
}

/// Append the decimal digits of `n`.
fn push_dec(out: &mut String, n: u64)
    ensures
        final(out)@ == old(out)@ + dec_rep(n as nat),
    decreases n,
{
    if n >= 10 {
        push_dec(out, n / 10);
        append_digit(out, n % 10);
        proof {
            assert(out@ =~= old(out)@ + dec_rep(n as nat));
        }
    } else {
        append_digit(out, n);
    }
}

/// Append the decimal text of `v`.
fn push_i64(out: &mut String, v: i64)
    ensures
        final(out)@ == old(out)@ + int_text(v as int),
{
    if v >= 0 {
        push_dec(out, v as u64);
    } else {
        out.append("-");
        let m: u64 = ((-(v + 1)) as u64) + 1;
        proof {
            assert(m == -(v as int));
        }
        push_dec(out, m);
        proof {
            reveal_strlit("-");
            assert(out@ =~= old(out)@ + int_text(v as int));
        }
    }
}

/// The sequence of views has the same length as the sequence of tags, and
/// its entries are the views of theirs.
pub proof fn lemma_tags_view_index(v: Seq<Tag>)
    ensures
        tags_view(v).len() == v.len(),
        forall|i: int| 0 <= i < v.len() ==> tags_view(v)[i] == tag_view(v[i]),
    decreases v.len(),
{
    if v.len() > 0 {
        lemma_tags_view_index(v.drop_first());
        assert forall|i: int| 0 <= i < v.len() implies tags_view(v)[i] == tag_view(v[i]) by {
            if i > 0 {
                assert(v.drop_first()[i - 1] == v[i]);
            }
        }
    }
}

/// The sequence of views has the same length as the sequence of payloads,
/// and its entries are the views of theirs.
pub proof fn lemma_payloads_view_index(v: Seq<TagPayload>)
    ensures
        payloads_view(v).len() == v.len(),
        forall|i: int| 0 <= i < v.len() ==> payloads_view(v)[i] == crate::nbt::payload_view(v[i]),
    decreases v.len(),
{
    if v.len() > 0 {
        lemma_payloads_view_index(v.drop_first());
        assert forall|i: int| 0 <= i < v.len() implies payloads_view(v)[i]
            == crate::nbt::payload_view(v[i]) by {
            if i > 0 {
                assert(v.drop_first()[i - 1] == v[i]);
            }
        }
    }
}

/// No child of a compound stands higher than the children's common height.
pub proof fn lemma_tags_height_bound(ts: Seq<TagV>, i: int)
    requires
        0 <= i < ts.len(),
    ensures
        tag_height(ts[i]) <= tags_height(ts),
    decreases ts.len(),
{
    if i > 0 {
        lemma_tags_height_bound(ts.drop_first(), i - 1);
        assert(ts.drop_first()[i - 1] == ts[i]);
    }
}

/// No element of a list stands higher than the elements' common height.
pub proof fn lemma_nodes_height_bound(es: Seq<NodeV>, i: int)
    requires
        0 <= i < es.len(),
    ensures
        payload_height(es[i]) <= nodes_height(es),
    decreases es.len(),
{
    if i > 0 {
        lemma_nodes_height_bound(es.drop_first(), i - 1);
        assert(es.drop_first()[i - 1] == es[i]);
    }
}

/// Render the children of a compound from index `i` on, joined by a comma
/// and a newline.
fn render_tags_from(v: &Vec<Tag>, i: usize, depth: usize) -> (r: String)
    requires
        i <= v@.len(),
        depth + tags_height(tags_view(v@)) <= usize::MAX,
    ensures
        r@ == spec_tags_snbt(tags_view(v@).skip(i as int), depth as nat),
    decreases tags_view(v@).skip(i as int),
{
    proof {
        lemma_tags_view_index(v@);
    }
    let ghost ts = tags_view(v@);
    if i == v.len() {
        proof {
            assert(ts.skip(i as int) =~= Seq::<TagV>::empty());
        }
        String::new()
    } else {
        proof {
            lemma_tags_height_bound(ts, i as int);
            assert(ts.skip(i as int)[0] == tag_view(v@[i as int]));
        }
        let mut s = render_tag(&v[i], depth);
        if i + 1 < v.len() {
            s.append(",\n");
            proof {
                assert(ts.skip(i as int).drop_first() =~= ts.skip(i + 1));
            }
            let rest = render_tags_from(v, i + 1, depth);
            s.append(rest.as_str());
            proof {
                reveal_strlit(",\n");
                assert(s@ =~= spec_tags_snbt(ts.skip(i as int), depth as nat));
            }
        } else {
            proof {
                assert(ts.skip(i as int).len() == 1);
            }
        }
        s
    }
}

/// Render the elements of a list from index `i` on, joined by a comma, a
/// newline and the indentation of the element depth.
fn render_nodes_from(v: &Vec<TagPayload>, i: usize, depth: usize) -> (r: String)
    requires
        i <= v@.len(),
        depth + nodes_height(payloads_view(v@)) <= usize::MAX,
    ensures
        r@ == spec_nodes_snbt(payloads_view(v@).skip(i as int), depth as nat),
    decreases payloads_view(v@).skip(i as int),
{
    proof {
        lemma_payloads_view_index(v@);
    }
    let ghost es = payloads_view(v@);
    if i == v.len() {
        proof {
            assert(es.skip(i as int) =~= Seq::<NodeV>::empty());
        }
        String::new()
    } else {
        proof {
            lemma_nodes_height_bound(es, i as int);
            assert(es.skip(i as int)[0] == crate::nbt::payload_view(v@[i as int]));
        }
        let mut s = render_payload(&v[i], depth);
        if i + 1 < v.len() {
            s.append(",\n");
            let ind = depth_to_string(depth);
            s.append(ind.as_str());
            proof {
                assert(es.skip(i as int).drop_first() =~= es.skip(i + 1));
            }
            let rest = render_nodes_from(v, i + 1, depth);
            s.append(rest.as_str());
            proof {
                reveal_strlit(",\n");
                assert(s@ =~= spec_nodes_snbt(es.skip(i as int), depth as nat));
            }
        } else {
            proof {
                assert(es.skip(i as int).len() == 1);
            }
        }
        s
    }
}

/// Render the elements of an int array from index `i` on, comma-space
/// separated.
fn render_ints_from(v: &Vec<i32>, i: usize) -> (r: String)
    requires
        i <= v@.len(),
    ensures
        r@ == spec_ints_text(v@.skip(i as int)),
    decreases v@.len() - i,
{
    if i == v.len() {
        proof {
            assert(v@.skip(i as int) =~= Seq::<i32>::empty());
        }
        String::new()
    } else {
        let mut s = String::new();
        push_i64(&mut s, v[i] as i64);
        if i + 1 < v.len() {
            s.append(", ");
            proof {
                assert(v@.skip(i as int).drop_first() =~= v@.skip(i + 1));
            }
            let rest = render_ints_from(v, i + 1);
            s.append(rest.as_str());
            proof {
                reveal_strlit(", ");
                assert(s@ =~= spec_ints_text(v@.skip(i as int)));
            }
        } else {
            proof {
                assert(v@.skip(i as int).len() == 1);
                assert(s@ =~= spec_ints_text(v@.skip(i as int)));
            }
        }
        s
    }
}

/// Render the elements of a byte array from index `i` on, comma-space
/// separated, each with a `B` suffix.
fn render_sbytes_from(v: &Vec<i8>, i: usize) -> (r: String)
    requires
        i <= v@.len(),
    ensures
        r@ == spec_sbytes_text(v@.skip(i as int)),
    decreases v@.len() - i,
{
    if i == v.len() {
        proof {
            assert(v@.skip(i as int) =~= Seq::<i8>::empty());
        }
        String::new()
    } else {
        let mut s = String::new();
        push_i64(&mut s, v[i] as i64);
        s.append("B");
        if i + 1 < v.len() {
            s.append(", ");
            proof {
                assert(v@.skip(i as int).drop_first() =~= v@.skip(i + 1));
            }
            let rest = render_sbytes_from(v, i + 1);
            s.append(rest.as_str());
            proof {
                reveal_strlit("B");
                reveal_strlit(", ");
                assert(s@ =~= spec_sbytes_text(v@.skip(i as int)));
            }
        } else {
            proof {
                reveal_strlit("B");
                assert(v@.skip(i as int).len() == 1);
                assert(s@ =~= spec_sbytes_text(v@.skip(i as int)));
            }
        }
        s
    }
}

/// Render one tag: `<indent><name>: <payload>` when the name is present and
/// non-empty, the bare payload text otherwise.
fn render_tag(t: &Tag, depth: usize) -> (r: String)
    requires
        depth + tag_height(t@) <= usize::MAX,
    ensures
        r@ == spec_tag_snbt(t@, depth as nat),
    decreases t@, 1nat,
{
    match &t.name {
        Some(name) => {
            if !name.as_str().is_empty() {
                let mut s = depth_to_string(depth);
                s.append(name.as_str());
                s.append(": ");
                let p = render_payload(&t.payload, depth);
                s.append(p.as_str());
                proof {
                    reveal_strlit(": ");
                    assert(s@ =~= spec_tag_snbt(t@, depth as nat));
                }
                s
            } else {
                render_payload(&t.payload, depth)
            }
        },
        None => render_payload(&t.payload, depth),
    }
}

/// Render one payload at the given nesting depth.
fn render_payload(p: &TagPayload, depth: usize) -> (r: String)
    requires
        depth + payload_height(p@) <= usize::MAX,
    ensures
        r@ == spec_payload_snbt(p@, depth as nat),
    decreases p@, 0nat,
{
    match p {
        TagPayload::Compound(v) => {
            let mut s = String::new();
            s.append("{\n");
            proof {
                assert(tags_view(v@).skip(0) =~= tags_view(v@));
            }
            let inner = render_tags_from(v, 0, depth + 1);
            s.append(inner.as_str());
            s.append("\n");
            let ind = depth_to_string(depth);
            s.append(ind.as_str());
            s.append("}");
            proof {
                reveal_strlit("{\n");
                reveal_strlit("\n");
                reveal_strlit("}");
                assert(s@ =~= spec_payload_snbt(p@, depth as nat));
            }
            s
        },
        TagPayload::List(v) => {
            let mut s = String::new();
            s.append("[\n");
            let ind1 = depth_to_string(depth + 1);
            s.append(ind1.as_str());
            proof {
                assert(payloads_view(v@).skip(0) =~= payloads_view(v@));
            }
            let inner = render_nodes_from(v, 0, depth + 1);
            s.append(inner.as_str());
            s.append("\n");
            let ind = depth_to_string(depth);
            s.append(ind.as_str());
            s.append("]");
            proof {
                reveal_strlit("[\n");
                reveal_strlit("\n");
                reveal_strlit("]");
                assert(s@ =~= spec_payload_snbt(p@, depth as nat));
            }
            s
        },
        TagPayload::IntArray(v) => {
            let mut s = String::new();
            s.append("[I;");
            proof {
                assert(v@.skip(0) =~= v@);
            }
            let inner = render_ints_from(v, 0);
            s.append(inner.as_str());
            s.append("]");
            proof {
                reveal_strlit("[I;");
                reveal_strlit("]");
                assert(s@ =~= spec_payload_snbt(p@, depth as nat));
            }
            s
        },
        TagPayload::ByteArray(v) => {
            let mut s = String::new();
            s.append("[B;");
            proof {
                assert(v@.skip(0) =~= v@);
            }
            let inner = render_sbytes_from(v, 0);
            s.append(inner.as_str());
            s.append("]");
            proof {
                reveal_strlit("[B;");
                reveal_strlit("]");
                assert(s@ =~= spec_payload_snbt(p@, depth as nat));
            }
            s
        },
        TagPayload::Byte(x) => {
            let mut s = String::new();
            push_i64(&mut s, *x as i64);
            s.append("B");
            proof {
                reveal_strlit("B");
                assert(s@ =~= spec_payload_snbt(p@, depth as nat));
            }
            s
        },
        TagPayload::Short(x) => {
            let mut s = String::new();
            push_i64(&mut s, *x as i64);
            s.append("S");
            proof {
                reveal_strlit("S");
                assert(s@ =~= spec_payload_snbt(p@, depth as nat));
            }
            s
        },
        TagPayload::Int(x) => {
            let mut s = String::new();
            push_i64(&mut s, *x as i64);
            proof {
                assert(s@ =~= spec_payload_snbt(p@, depth as nat));
            }
            s
        },
        TagPayload::Long(x) => {
            let mut s = String::new();
            push_i64(&mut s, *x);
            s.append("L");
            proof {
                reveal_strlit("L");
                assert(s@ =~= spec_payload_snbt(p@, depth as nat));
            }
            s
        },
        TagPayload::Float(b) => {
            let mut s = float_to_string(*b);
            s.append("F");
            proof {
                reveal_strlit("F");
                assert(s@ =~= spec_payload_snbt(p@, depth as nat));
            }
            s
        },
        TagPayload::Double(b) => {
            let mut s = double_to_string(*b);
            s.append("D");
            proof {
                reveal_strlit("D");
                assert(s@ =~= spec_payload_snbt(p@, depth as nat));
            }
            s
        },
        TagPayload::String(t) => {
            let mut s = String::new();
            s.append("\"");
            s.append(t.as_str());
            s.append("\"");
            proof {
                reveal_strlit("\"");
                assert(s@ =~= spec_payload_snbt(p@, depth as nat));
            }
            s
        },
        TagPayload::Unknown => {
            let mut s = String::new();
            s.append("unknown");
            proof {
                reveal_strlit("unknown");
                assert(s@ =~= spec_payload_snbt(p@, depth as nat));
            }
            s
        },
    }
}

/// Decode one tag from the start of the bytes and render it with the root
/// at depth 0: the whole pipeline of the library in one call. Succeeds
/// exactly when the bytes of one full tag are present.
pub fn decode_and_render(data: &[u8]) -> (r: Result<String, NbtError>)
    ensures
        (match r {
            Ok(text) => (match spec_tag(data@, 0) {
                Some((t, end)) => text@ == spec_tag_snbt(t, 0),
                None => false,
            }),
            Err(e) => spec_tag(data@, 0) is None && e == NbtError::UnexpectedEnd,
        }),
{
    // the call to len brings the machine bound on the slice's length into
    // scope: a decoded tree is then provably renderable at depth 0
    let _len = data.len();
    let mut reader = TagReader::new(data);
    match reader.read_tag() {
        Ok(t) => {
            proof {
                crate::laws::lemma_tag_height_bounded(data@, 0);
            }
            Ok(t.to_snbt(0))
        },
        Err(e) => Err(e),
    }
}

impl ToSnbt for Tag {
    open spec fn snbt_spec(&self, depth: nat) -> Seq<char> {
        spec_tag_snbt(self@, depth)
    }

    open spec fn snbt_ok(&self, depth: nat) -> bool {
        depth + tag_height(self@) <= usize::MAX
    }

    fn to_snbt(&self, depth: usize) -> (r: String) {
        render_tag(self, depth)
    }
}

impl ToSnbt for TagPayload {
    open spec fn snbt_spec(&self, depth: nat) -> Seq<char> {
        spec_payload_snbt(self@, depth)
    }

    open spec fn snbt_ok(&self, depth: nat) -> bool {
        depth + payload_height(self@) <= usize::MAX
    }

    fn to_snbt(&self, depth: usize) -> (r: String) {
        render_payload(self, depth)
    }
}

} // verus!
