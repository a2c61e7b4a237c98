//! The tag tree and the binary decoder.
//!
//! A tag is a node of a self-describing tree: an optional name and a typed
//! payload. The wire format is little-endian: a one-byte kind code, a
//! length-prefixed name (except for the `End` sentinel, kind 0), and a
//! payload whose layout the kind code determines.

use vstd::prelude::*;

verus! {

broadcast use vstd::seq::group_seq_axioms;

/// A decoded tag: an optional name and a typed payload.
///
/// Compound entries and the root carry a name (possibly empty); list and
/// array elements do not.
#[derive(Debug)]
pub struct Tag {
    pub name: Option<String>,
    pub payload: TagPayload,
}

/// The typed value of a tag.
///
/// `Float` and `Double` hold the raw little-endian bit pattern of the 4- and
/// 8-byte floating-point payloads; the renderer turns the bits into decimal
/// text. `Unknown` stands for any unrecognized kind code and carries no data.
#[derive(Debug)]
pub enum TagPayload {
    Compound(Vec<Tag>),
    IntArray(Vec<i32>),
    ByteArray(Vec<i8>),
    List(Vec<TagPayload>),
    Byte(i8),
    Short(i16),
    Int(i32),
    Long(i64),
    Float(u32),
    Double(u64),
    String(String),
    Unknown,
}

/// Ghost model of a [`Tag`]: the same tree with mathematical sequences in
/// place of vectors and strings.
pub ghost struct TagV {
    pub name: Option<Seq<char>>,
    pub payload: NodeV,
}

/// Ghost model of a [`TagPayload`].
pub ghost enum NodeV {
    Compound(Seq<TagV>),
    IntArray(Seq<i32>),
    ByteArray(Seq<i8>),
    List(Seq<NodeV>),
    Byte(i8),
    Short(i16),
    Int(i32),
    Long(i64),
    Float(u32),
    Double(u64),
    String(Seq<char>),
    Unknown,
}

/// The views of a sequence of tags, in order.
pub open spec fn tags_view(v: Seq<Tag>) -> Seq<TagV>
    decreases v,
{
    if v.len() == 0 {
        Seq::empty()
    } else {
        seq![tag_view(v[0])] + tags_view(v.drop_first())
    }
}

/// The views of a sequence of payloads, in order.
pub open spec fn payloads_view(v: Seq<TagPayload>) -> Seq<NodeV>
    decreases v,
{
    if v.len() == 0 {
        Seq::empty()
    } else {
        seq![payload_view(v[0])] + payloads_view(v.drop_first())
    }
}

/// The ghost model of a tag.
pub open spec fn tag_view(t: Tag) -> TagV
    decreases t,
{
    TagV {
        name: match t.name {
            Some(s) => Some(s@),
            None => None,
        },
        payload: payload_view(t.payload),
    }
}

/// The ghost model of a payload.
pub open spec fn payload_view(p: TagPayload) -> NodeV
    decreases p,
{
    match p {
        TagPayload::Compound(v) => NodeV::Compound(tags_view(v@)),
        TagPayload::IntArray(v) => NodeV::IntArray(v@),
        TagPayload::ByteArray(v) => NodeV::ByteArray(v@),
        TagPayload::List(v) => NodeV::List(payloads_view(v@)),
        TagPayload::Byte(x) => NodeV::Byte(x),
        TagPayload::Short(x) => NodeV::Short(x),
        TagPayload::Int(x) => NodeV::Int(x),
        TagPayload::Long(x) => NodeV::Long(x),
        TagPayload::Float(x) => NodeV::Float(x),
        TagPayload::Double(x) => NodeV::Double(x),
        TagPayload::String(s) => NodeV::String(s@),
        TagPayload::Unknown => NodeV::Unknown,
    }
}

impl View for Tag {
    type V = TagV;

    open spec fn view(&self) -> TagV {
        tag_view(*self)
    }
}

impl View for TagPayload {
    type V = NodeV;

    open spec fn view(&self) -> NodeV {
        payload_view(*self)
    }
}

/// The one failure of the decoder: the stream ended before a required field
/// was fully read. Malformed-but-complete data never raises it; an
/// unrecognized kind code becomes [`TagPayload::Unknown`] and a negative
/// length an empty sequence.
#[derive(Debug, PartialEq, Eq, Structural)]
pub enum NbtError {
    UnexpectedEnd,
}

/// The text that decoding a byte sequence as UTF-8 produces, with every
/// invalid sequence replaced. Left uninterpreted: the trusted wrapper
/// [`lossy_utf8_to_string`] is the one place that computes it.
pub uninterp spec fn lossy_utf8(bytes: Seq<u8>) -> Seq<char>;

/// The unsigned 16-bit value stored little-endian at `pos`.
pub open spec fn spec_u16_at(s: Seq<u8>, pos: int) -> u16 {
    (s[pos] as u16) | ((s[pos + 1] as u16) << 8)
}

/// The unsigned 32-bit value stored little-endian at `pos`.
pub open spec fn spec_u32_at(s: Seq<u8>, pos: int) -> u32 {
    (s[pos] as u32) | ((s[pos + 1] as u32) << 8) | ((s[pos + 2] as u32) << 16) | ((s[pos + 3] as u32) << 24)
}

/// The unsigned 64-bit value stored little-endian at `pos`.
pub open spec fn spec_u64_at(s: Seq<u8>, pos: int) -> u64 {
    (s[pos] as u64) | ((s[pos + 1] as u64) << 8) | ((s[pos + 2] as u64) << 16) | ((s[pos + 3] as u64) << 24)
        | ((s[pos + 4] as u64) << 32) | ((s[pos + 5] as u64) << 40) | ((s[pos + 6] as u64) << 48) | ((s[pos + 7] as u64) << 56)
}

/// The signed 16-bit value stored little-endian at `pos`.
pub open spec fn spec_i16_at(s: Seq<u8>, pos: int) -> i16 {
    spec_u16_at(s, pos) as i16
}

/// The signed 32-bit value stored little-endian at `pos`.
pub open spec fn spec_i32_at(s: Seq<u8>, pos: int) -> i32 {
    spec_u32_at(s, pos) as i32
}

/// The signed 64-bit value stored little-endian at `pos`.
pub open spec fn spec_i64_at(s: Seq<u8>, pos: int) -> i64 {
    spec_u64_at(s, pos) as i64
}

/// Decoding of a length-prefixed string at `pos`: a 2-byte little-endian
/// unsigned length, then that many bytes of UTF-8 text, decoded leniently.
/// `None` exactly when the bytes run out.
pub open spec fn spec_string(s: Seq<u8>, pos: int) -> Option<(Seq<char>, int)> {
    if 0 <= pos && pos + 2 <= s.len() {
        let n = spec_u16_at(s, pos) as int;
        if pos + 2 + n <= s.len() {
            Some((lossy_utf8(s.subrange(pos + 2, pos + 2 + n)), pos + 2 + n))
        } else {
            None
        }
    } else {
        None
    }
}

/// Decoding of a tag header at `pos`: the kind byte, then — unless the kind
/// is the `End` sentinel 0 — a length-prefixed name. Yields the kind, the
/// name, and the position just past the header.
pub open spec fn spec_header(s: Seq<u8>, pos: int) -> Option<(i8, Option<Seq<char>>, int)> {
    if 0 <= pos && pos < s.len() {
        let kind = s[pos] as i8;
        if kind == 0 {
            Some((0, None, pos + 1))
        } else {
            match spec_string(s, pos + 1) {
                Some((name, end)) => Some((kind, Some(name), end)),
                None => None,
            }
        }
    } else {
        None
    }
}

/// Decoding of a payload of the given kind at `pos`. Scalars are fixed-width
/// little-endian reads; arrays and lists carry a 4-byte signed count, a
/// non-positive count giving an empty sequence; a compound runs to its `End`
/// sentinel; any kind outside 1..=11 is `Unknown` and consumes nothing.
/// `None` exactly when the bytes run out.
pub open spec fn spec_payload(s: Seq<u8>, pos: int, kind: i8) -> Option<(NodeV, int)>
    decreases s.len() - pos, 0nat, 2nat,
{
    if !(0 <= pos <= s.len()) {
        None
    } else if kind == 1 {
        if pos + 1 <= s.len() {
            Some((NodeV::Byte(s[pos] as i8), pos + 1))
        } else {
            None
        }
    } else if kind == 2 {
        if pos + 2 <= s.len() {
            Some((NodeV::Short(spec_i16_at(s, pos)), pos + 2))
        } else {
            None
        }
    } else if kind == 3 {
        if pos + 4 <= s.len() {
            Some((NodeV::Int(spec_i32_at(s, pos)), pos + 4))
        } else {
            None
        }
    } else if kind == 4 {
        if pos + 8 <= s.len() {
            Some((NodeV::Long(spec_i64_at(s, pos)), pos + 8))
        } else {
            None
        }
    } else if kind == 5 {
        if pos + 4 <= s.len() {
            Some((NodeV::Float(spec_u32_at(s, pos)), pos + 4))
        } else {
            None
        }
    } else if kind == 6 {
        if pos + 8 <= s.len() {
            Some((NodeV::Double(spec_u64_at(s, pos)), pos + 8))
        } else {
            None
        }
    } else if kind == 7 {
        if pos + 4 <= s.len() {
            let n: int = if spec_i32_at(s, pos) <= 0 { 0 } else { spec_i32_at(s, pos) as int };
            if pos + 4 + n <= s.len() {
                Some((NodeV::ByteArray(Seq::new(n as nat, |i: int| s[pos + 4 + i] as i8)), pos + 4 + n))
            } else {
                None
            }
        } else {
            None
        }
    } else if kind == 8 {
        match spec_string(s, pos) {
            Some((t, end)) => Some((NodeV::String(t), end)),
            None => None,
        }
    } else if kind == 9 {
        match spec_list(s, pos) {
            Some((es, end)) => Some((NodeV::List(es), end)),
            None => None,
        }
    } else if kind == 10 {
        match spec_compound(s, pos) {
            Some((ts, end)) => Some((NodeV::Compound(ts), end)),
            None => None,
        }
    } else if kind == 11 {
        if pos + 4 <= s.len() {
            let n: int = if spec_i32_at(s, pos) <= 0 { 0 } else { spec_i32_at(s, pos) as int };
            if pos + 4 + 4 * n <= s.len() {
                Some((NodeV::IntArray(Seq::new(n as nat, |i: int| spec_i32_at(s, pos + 4 + 4 * i))), pos + 4 + 4 * n))
            } else {
                None
            }
        } else {
            None
        }
    } else {
        Some((NodeV::Unknown, pos))
    }
}

/// Decoding of a list payload at `pos`: one byte of element kind, a 4-byte
/// signed count (non-positive counts give the empty list), then that many
/// bare payloads of the stated kind.
pub open spec fn spec_list(s: Seq<u8>, pos: int) -> Option<(Seq<NodeV>, int)>
    decreases s.len() - pos, 0nat, 1nat,
{
    if 0 <= pos && pos + 5 <= s.len() {
        let ekind = s[pos] as i8;
        let c = spec_i32_at(s, pos + 1);
        let n: nat = if c <= 0 { 0 } else { c as nat };
        spec_list_elems(s, pos + 5, ekind, n)
    } else {
        None
    }
}

/// Decoding of `n` consecutive bare payloads of kind `kind`, starting at
/// `pos`.
pub open spec fn spec_list_elems(s: Seq<u8>, pos: int, kind: i8, n: nat) -> Option<(Seq<NodeV>, int)>
    decreases s.len() - pos, n, 0nat,
{
    if !(0 <= pos <= s.len()) {
        None
    } else if n == 0 {
        Some((Seq::empty(), pos))
    } else {
        match spec_payload(s, pos, kind) {
            None => None,
            Some((p, end)) => if pos <= end <= s.len() {
                match spec_list_elems(s, end, kind, (n - 1) as nat) {
                    None => None,
                    Some((rest, end2)) => Some((seq![p] + rest, end2)),
                }
            } else {
                None
            },
        }
    }
}

/// Decoding of a compound payload at `pos`: header+payload pairs up to and
/// including an `End` header, which is consumed but not kept.
pub open spec fn spec_compound(s: Seq<u8>, pos: int) -> Option<(Seq<TagV>, int)>
    decreases s.len() - pos, 0nat, 1nat,
{
    if !(0 <= pos <= s.len()) {
        None
    } else {
        match spec_header(s, pos) {
            None => None,
            Some((kind, name, p1)) => if kind == 0 {
                Some((Seq::empty(), p1))
            } else if pos < p1 <= s.len() {
                match spec_payload(s, p1, kind) {
                    None => None,
                    Some((pl, p2)) => if pos < p2 <= s.len() {
                        match spec_compound(s, p2) {
                            None => None,
                            Some((rest, end)) => Some((seq![TagV { name, payload: pl }] + rest, end)),
                        }
                    } else {
                        None
                    },
                }
            } else {
                None
            },
        }
    }
}

/// Decoding of one full tag at `pos`: a header, then a payload of the
/// header's kind. An `End` header yields an unnamed tag with an `Unknown`
/// payload, consuming the one sentinel byte.
pub open spec fn spec_tag(s: Seq<u8>, pos: int) -> Option<(TagV, int)>
    decreases s.len() - pos, 0nat, 3nat,
{
    if !(0 <= pos <= s.len()) {
        None
    } else {
        match spec_header(s, pos) {
            None => None,
            Some((kind, name, p1)) => if pos < p1 <= s.len() {
                match spec_payload(s, p1, kind) {
                    None => None,
                    Some((pl, end)) => Some((TagV { name, payload: pl }, end)),
                }
            } else {
                None
            },
        }
    }
}

/// Relies on std's `String::from_utf8_lossy`: it decodes the given bytes as
/// UTF-8, replacing each invalid sequence with U+FFFD, and its result is a
/// function of the bytes alone. The result is named [`lossy_utf8`]; beside
/// the name stand two facts its documentation plainly gives — empty input
/// decodes to the empty string, and bytes that are all ASCII (valid UTF-8
/// one byte per character) decode to exactly those characters.
#[verifier::external_body]
fn lossy_utf8_to_string(bytes: &[u8]) -> (r: String)
    ensures
        r@ == lossy_utf8(bytes@),
        bytes@.len() == 0 ==> r@ == Seq::<char>::empty(),
        (forall|i: int| 0 <= i < bytes@.len() ==> bytes@[i] < 128) ==> r@ == bytes@.map_values(
            |b: u8| b as char,
        ),
{
    String::from_utf8_lossy(bytes).to_string()
}

/// A tag header as it stands on the wire: the kind code, and a name for
/// every kind but the `End` sentinel.
#[derive(Debug)]
pub struct TagHeader {
    pub kind: i8,
    pub name: Option<String>,
}

/// The ghost name of a header: the view of its optional name.
pub open spec fn opt_name_view(name: Option<String>) -> Option<Seq<char>> {
    match name {
        Some(s) => Some(s@),
        None => None,
    }
}

/// A cursor over a byte slice, positioned at the start of the next field to
/// decode.
pub struct TagReader<'a> {
    data: &'a [u8],
    pos: usize,
}

impl<'a> TagReader<'a> {
    /// The whole input the reader was made with.
    pub closed spec fn input(&self) -> Seq<u8> {
        self.data@
    }

    /// The cursor: how many bytes have been consumed.
    pub closed spec fn at(&self) -> int {
        self.pos as int
    }

    /// The cursor never passes the end of the input.
    pub open spec fn wf(&self) -> bool {
        0 <= self.at() <= self.input().len()
    }

    pub fn new(data: &'a [u8]) -> (r: Self)
        ensures
            r.input() == data@,
            r.at() == 0,
            r.wf(),
    {
        TagReader { data, pos: 0 }
    }

    /// Take the next `n` bytes, or fail without moving if fewer are left.
    fn take(&mut self, n: usize) -> (r: Result<&'a [u8], NbtError>)
        requires
            old(self).wf(),
        ensures
            final(self).wf(),
            final(self).input() == old(self).input(),
            match r {
                Ok(b) => {
                    &&& old(self).at() + n <= old(self).input().len()
                    &&& b@ == old(self).input().subrange(old(self).at(), old(self).at() + n)
                    &&& final(self).at() == old(self).at() + n
                },
                Err(_) => {
                    &&& old(self).at() + n > old(self).input().len()
                    &&& final(self).at() == old(self).at()
                },
            },
    {
        if n <= self.data.len() - self.pos {
            let b = vstd::slice::slice_subrange(self.data, self.pos, self.pos + n);
            self.pos = self.pos + n;
            Ok(b)
        } else {
            Err(NbtError::UnexpectedEnd)
        }
    }

    /// Read one byte.
    fn read_u8(&mut self) -> (r: Result<u8, NbtError>)
        requires
            old(self).wf(),
        ensures
            final(self).wf(),
            final(self).input() == old(self).input(),
            match r {
                Ok(b) => {
                    &&& old(self).at() + 1 <= old(self).input().len()
                    &&& b == old(self).input()[old(self).at()]
                    &&& final(self).at() == old(self).at() + 1
                },
                Err(_) => {
                    &&& old(self).at() + 1 > old(self).input().len()
                    &&& final(self).at() == old(self).at()
                },
            },
    {
        if self.pos < self.data.len() {
            let b = *vstd::slice::slice_index_get(self.data, self.pos);
            self.pos = self.pos + 1;
            Ok(b)
        } else {
            Err(NbtError::UnexpectedEnd)
        }
    }

    /// Read a 2-byte little-endian unsigned integer.
    fn read_u16(&mut self) -> (r: Result<u16, NbtError>)
        requires
            old(self).wf(),
        ensures
            final(self).wf(),
            final(self).input() == old(self).input(),
            match r {
                Ok(x) => {
                    &&& old(self).at() + 2 <= old(self).input().len()
                    &&& x == spec_u16_at(old(self).input(), old(self).at())
                    &&& final(self).at() == old(self).at() + 2
                },
                Err(_) => {
                    &&& old(self).at() + 2 > old(self).input().len()
                    &&& final(self).at() == old(self).at()
                },
            },
    {
        match self.take(2) {
            Ok(b) => {
                let x = (*vstd::slice::slice_index_get(b, 0) as u16) | ((*vstd::slice::slice_index_get(
                    b,
                    1,
                ) as u16) << 8u16);
                Ok(x)
            },
            Err(e) => Err(e),
        }
    }

    /// Read a 4-byte little-endian unsigned integer.
    fn read_u32(&mut self) -> (r: Result<u32, NbtError>)
        requires
            old(self).wf(),
        ensures
            final(self).wf(),
            final(self).input() == old(self).input(),
            match r {
                Ok(x) => {
                    &&& old(self).at() + 4 <= old(self).input().len()
                    &&& x == spec_u32_at(old(self).input(), old(self).at())
                    &&& final(self).at() == old(self).at() + 4
                },
                Err(_) => {
                    &&& old(self).at() + 4 > old(self).input().len()
                    &&& final(self).at() == old(self).at()
                },
            },
    {
        match self.take(4) {
            Ok(b) => {
                let x = (*vstd::slice::slice_index_get(b, 0) as u32) | ((*vstd::slice::slice_index_get(
                    b,
                    1,
                ) as u32) << 8u32) | ((*vstd::slice::slice_index_get(b, 2) as u32) << 16u32) | ((
                *vstd::slice::slice_index_get(b, 3) as u32) << 24u32);
                Ok(x)
            },
            Err(e) => Err(e),
        }
    }

    /// Read an 8-byte little-endian unsigned integer.
    fn read_u64(&mut self) -> (r: Result<u64, NbtError>)
        requires
            old(self).wf(),
        ensures
            final(self).wf(),
            final(self).input() == old(self).input(),
            match r {
                Ok(x) => {
                    &&& old(self).at() + 8 <= old(self).input().len()
                    &&& x == spec_u64_at(old(self).input(), old(self).at())
                    &&& final(self).at() == old(self).at() + 8
                },
                Err(_) => {
                    &&& old(self).at() + 8 > old(self).input().len()
                    &&& final(self).at() == old(self).at()
                },
            },
    {
        match self.take(8) {
            Ok(b) => {
                let x = (*vstd::slice::slice_index_get(b, 0) as u64) | ((*vstd::slice::slice_index_get(
                    b,
                    1,
                ) as u64) << 8u64) | ((*vstd::slice::slice_index_get(b, 2) as u64) << 16u64) | ((
                *vstd::slice::slice_index_get(b, 3) as u64) << 24u64) | ((*vstd::slice::slice_index_get(
                    b,
                    4,
                ) as u64) << 32u64) | ((*vstd::slice::slice_index_get(b, 5) as u64) << 40u64) | ((
                *vstd::slice::slice_index_get(b, 6) as u64) << 48u64) | ((*vstd::slice::slice_index_get(
                    b,
                    7,
                ) as u64) << 56u64);
                Ok(x)
            },
            Err(e) => Err(e),
        }
    }

    /// Read a length-prefixed, leniently decoded string.
    fn read_string(&mut self) -> (r: Result<String, NbtError>)
        requires
            old(self).wf(),
        ensures
            final(self).wf(),
            final(self).input() == old(self).input(),
            old(self).at() <= final(self).at(),
            match r {
                Ok(t) => spec_string(old(self).input(), old(self).at()) == Some(
                    (t@, final(self).at()),
                ),
                Err(_) => spec_string(old(self).input(), old(self).at()) is None && final(self).at() == old(self).at(),
            },
    {
        let start = self.pos;
        let n = match self.read_u16() {
            Ok(v) => v,
            Err(e) => {
                return Err(e);
            },
        };
        let bytes = match self.take(n as usize) {
            Ok(b) => b,
            Err(e) => {
                self.pos = start;
                return Err(e);
            },
        };
        Ok(lossy_utf8_to_string(bytes))
    }

    /// Read a tag header: the kind byte, then a name unless the kind is the
    /// `End` sentinel.
    pub fn read_header(&mut self) -> (r: Result<TagHeader, NbtError>)
        requires
            old(self).wf(),
        ensures
            final(self).wf(),
            final(self).input() == old(self).input(),
            old(self).at() <= final(self).at(),
            match r {
                Ok(h) => spec_header(old(self).input(), old(self).at()) == Some(
                    (h.kind, opt_name_view(h.name), final(self).at()),
                ) && old(self).at() < final(self).at(),
                Err(_) => spec_header(old(self).input(), old(self).at()) is None && final(self).at() == old(self).at(),
            },
    {
        let start = self.pos;
        let kind = match self.read_u8() {
            Ok(b) => b as i8,
            Err(e) => {
                return Err(e);
            },
        };
        if kind == 0 {
            Ok(TagHeader { kind, name: None })
        } else {
            let name = match self.read_string() {
                Ok(t) => t,
                Err(e) => {
                    self.pos = start;
                    return Err(e);
                },
            };
            Ok(TagHeader { kind, name: Some(name) })
        }
    }

    /// Read a byte-array payload: a 4-byte signed count (non-positive counts
    /// give an empty array), then that many signed bytes.
    fn read_i8_array(&mut self) -> (r: Result<Vec<i8>, NbtError>)
        requires
            old(self).wf(),
        ensures
            final(self).wf(),
            final(self).input() == old(self).input(),
            old(self).at() <= final(self).at(),
            (match r {
                Ok(v) => spec_payload(old(self).input(), old(self).at(), 7) == Some(
                    (NodeV::ByteArray(v@), final(self).at()),
                ),
                Err(_) => spec_payload(old(self).input(), old(self).at(), 7) is None && final(self).at() == old(self).at(),
            }),
    {
        let ghost s = old(self).input();
        let ghost pos0 = old(self).at();
        let start = self.pos;
        let count = match self.read_u32() {
            Ok(x) => x as i32,
            Err(e) => {
                return Err(e);
            },
        };
        let mut v: Vec<i8> = Vec::new();
        if count <= 0 {
            proof {
                assert(v@ =~= Seq::new(0, |j: int| s[pos0 + 4 + j] as i8));
            }
            return Ok(v);
        }
        let n = count as usize;
        let ghost base = self.at();
        let mut i: usize = 0;
        while i < n
            invariant
                self.wf(),
                self.input() == s,
                s == old(self).input(),
                pos0 == old(self).at(),
                start as int == pos0,
                base == pos0 + 4,
                0 <= pos0,
                pos0 + 4 <= s.len(),
                i <= n,
                n == spec_i32_at(s, pos0),
                self.at() == base + i,
                v@ == Seq::new(i as nat, |j: int| s[base + j] as i8),
            decreases n - i,
        {
            let b = match self.read_u8() {
                Ok(b) => b as i8,
                Err(e) => {
                    self.pos = start;
                    return Err(e);
                },
            };
            i = i + 1;
            v.push(b);
            proof {
                assert(v@ =~= Seq::new(i as nat, |j: int| s[base + j] as i8));
            }
        }
        proof {
            assert(v@ =~= Seq::new(n as nat, |j: int| s[pos0 + 4 + j] as i8));
        }
        Ok(v)
    }

    /// Read an int-array payload: a 4-byte signed count (non-positive counts
    /// give an empty array), then that many 4-byte signed integers.
    fn read_i32_array(&mut self) -> (r: Result<Vec<i32>, NbtError>)
        requires
            old(self).wf(),
        ensures
            final(self).wf(),
            final(self).input() == old(self).input(),
            old(self).at() <= final(self).at(),
            (match r {
                Ok(v) => spec_payload(old(self).input(), old(self).at(), 11) == Some(
                    (NodeV::IntArray(v@), final(self).at()),
                ),
                Err(_) => spec_payload(old(self).input(), old(self).at(), 11) is None && final(self).at() == old(self).at(),
            }),
    {
        let ghost s = old(self).input();
        let ghost pos0 = old(self).at();
        let start = self.pos;
        let count = match self.read_u32() {
            Ok(x) => x as i32,
            Err(e) => {
                return Err(e);
            },
        };
        let mut v: Vec<i32> = Vec::new();
        if count <= 0 {
            proof {
                assert(v@ =~= Seq::new(0, |j: int| spec_i32_at(s, pos0 + 4 + 4 * j)));
            }
            return Ok(v);
        }
        let n = count as usize;
        let ghost base = self.at();
        let mut i: usize = 0;
        while i < n
            invariant
                self.wf(),
                self.input() == s,
                s == old(self).input(),
                pos0 == old(self).at(),
                start as int == pos0,
                base == pos0 + 4,
                0 <= pos0,
                pos0 + 4 <= s.len(),
                i <= n,
                n == spec_i32_at(s, pos0),
                self.at() == base + 4 * i,
                v@ == Seq::new(i as nat, |j: int| spec_i32_at(s, base + 4 * j)),
            decreases n - i,
        {
            let x = match self.read_u32() {
                Ok(x) => x as i32,
                Err(e) => {
                    self.pos = start;
                    return Err(e);
                },
            };
            i = i + 1;
            v.push(x);
            proof {
                assert(v@ =~= Seq::new(i as nat, |j: int| spec_i32_at(s, base + 4 * j)));
            }
        }
        proof {
            assert(v@ =~= Seq::new(n as nat, |j: int| spec_i32_at(s, pos0 + 4 + 4 * j)));
        }
        Ok(v)
    }

    /// Read a list payload: one byte of element kind, a 4-byte signed count
    /// (non-positive counts give the empty list), then that many bare
    /// payloads of the stated kind.
    fn read_list(&mut self) -> (r: Result<Vec<TagPayload>, NbtError>)
        requires
            old(self).wf(),
        ensures
            final(self).wf(),
            final(self).input() == old(self).input(),
            old(self).at() <= final(self).at(),
            (match r {
                Ok(v) => spec_list(old(self).input(), old(self).at()) == Some(
                    (payloads_view(v@), final(self).at()),
                ),
                Err(_) => spec_list(old(self).input(), old(self).at()) is None && final(self).at() == old(self).at(),
            }),
        decreases self.input().len() - self.at(), 0nat, 1nat,
    {
        let ghost s = old(self).input();
        let ghost pos0 = old(self).at();
        let start = self.pos;
        let ekind = match self.read_u8() {
            Ok(b) => b as i8,
            Err(e) => {
                return Err(e);
            },
        };
        let count = match self.read_u32() {
            Ok(x) => x as i32,
            Err(e) => {
                self.pos = start;
                return Err(e);
            },
        };
        let n: usize = if count <= 0 {
            0
        } else {
            count as usize
        };
        let ghost base = self.at();
        let mut v: Vec<TagPayload> = Vec::new();
        let mut i: usize = 0;
        proof {
            assert(payloads_view(v@) =~= Seq::<NodeV>::empty());
        }
        while i < n
            invariant
                self.wf(),
                self.input() == s,
                s == old(self).input(),
                pos0 == old(self).at(),
                start as int == pos0,
                0 <= pos0,
                base == pos0 + 5,
                base <= self.at(),
                pos0 + 5 <= s.len(),
                i <= n,
                ekind == s[pos0] as i8,
                (if spec_i32_at(s, pos0 + 1) <= 0 {
                    n == 0
                } else {
                    n == spec_i32_at(s, pos0 + 1)
                }),
                (match spec_list_elems(s, self.at(), ekind, (n - i) as nat) {
                    Some((rest, e)) => spec_list_elems(s, base, ekind, n as nat) == Some(
                        (payloads_view(v@) + rest, e),
                    ),
                    None => spec_list_elems(s, base, ekind, n as nat) is None,
                }),
            decreases n - i,
        {
            let p = match self.read_payload(ekind) {
                Ok(p) => p,
                Err(e) => {
                    self.pos = start;
                    return Err(e);
                },
            };
            proof {
                lemma_payloads_view_push(v@, p);
                assert(payloads_view(v@.push(p)) =~= payloads_view(v@) + seq![p@]);
            }
            v.push(p);
            i = i + 1;
        }
        proof {
            assert(spec_list_elems(s, self.at(), ekind, 0) == Some(
                (Seq::<NodeV>::empty(), self.at()),
            ));
            assert(payloads_view(v@) + Seq::<NodeV>::empty() =~= payloads_view(v@));
        }
        Ok(v)
    }

    /// Read a compound payload: header+payload pairs, in order, up to an
    /// `End` header, which is consumed but not kept.
    fn read_compound(&mut self) -> (r: Result<Vec<Tag>, NbtError>)
        requires
            old(self).wf(),
        ensures
            final(self).wf(),
            final(self).input() == old(self).input(),
            old(self).at() <= final(self).at(),
            (match r {
                Ok(v) => spec_compound(old(self).input(), old(self).at()) == Some(
                    (tags_view(v@), final(self).at()),
                ),
                Err(_) => spec_compound(old(self).input(), old(self).at()) is None && final(self).at() == old(self).at(),
            }),
        decreases self.input().len() - self.at(), 0nat, 1nat,
    {
        let ghost s = old(self).input();
        let ghost pos0 = old(self).at();
        let start = self.pos;
        let mut v: Vec<Tag> = Vec::new();
        proof {
            assert(tags_view(v@) =~= Seq::<TagV>::empty());
        }
        loop
            invariant_except_break
                (match spec_compound(s, self.at()) {
                    Some((rest, e)) => spec_compound(s, pos0) == Some((tags_view(v@) + rest, e)),
                    None => spec_compound(s, pos0) is None,
                }),
            invariant
                self.wf(),
                self.input() == s,
                s == old(self).input(),
                pos0 == old(self).at(),
                start as int == pos0,
                0 <= pos0 <= self.at(),
            ensures
                spec_compound(s, pos0) == Some((tags_view(v@), self.at())),
            decreases s.len() - self.at(),
        {
            let ghost cur = self.at();
            let header = match self.read_header() {
                Ok(h) => h,
                Err(e) => {
                    self.pos = start;
                    return Err(e);
                },
            };
            if header.kind == 0 {
                proof {
                    assert(spec_compound(s, cur) == Some((Seq::<TagV>::empty(), self.at())));
                    assert(tags_view(v@) + Seq::<TagV>::empty() =~= tags_view(v@));
                }
                break;
            }
            let payload = match self.read_payload(header.kind) {
                Ok(p) => p,
                Err(e) => {
                    self.pos = start;
                    return Err(e);
                },
            };
            let t = Tag { name: header.name, payload };
            proof {
                lemma_tags_view_push(v@, t);
                assert(tags_view(v@.push(t)) =~= tags_view(v@) + seq![t@]);
            }
            v.push(t);
        }
        Ok(v)
    }

    /// Read a bare payload of the given kind. Any kind outside 1..=11 —
    /// including the `End` sentinel 0 — yields `Unknown` and consumes
    /// nothing.
    fn read_payload(&mut self, kind: i8) -> (r: Result<TagPayload, NbtError>)
        requires
            old(self).wf(),
        ensures
            final(self).wf(),
            final(self).input() == old(self).input(),
            old(self).at() <= final(self).at(),
            (match r {
                Ok(p) => spec_payload(old(self).input(), old(self).at(), kind) == Some(
                    (p@, final(self).at()),
                ),
                Err(_) => spec_payload(old(self).input(), old(self).at(), kind) is None && final(self).at() == old(self).at(),
            }),
        decreases self.input().len() - self.at(), 0nat, 2nat,
    {
        if kind == 1 {
            match self.read_u8() {
                Ok(b) => Ok(TagPayload::Byte(b as i8)),
                Err(e) => Err(e),
            }
        } else if kind == 2 {
            match self.read_u16() {
                Ok(x) => Ok(TagPayload::Short(x as i16)),
                Err(e) => Err(e),
            }
        } else if kind == 3 {
            match self.read_u32() {
                Ok(x) => Ok(TagPayload::Int(x as i32)),
                Err(e) => Err(e),
            }
        } else if kind == 4 {
            match self.read_u64() {
                Ok(x) => Ok(TagPayload::Long(x as i64)),
                Err(e) => Err(e),
            }
        } else if kind == 5 {
            match self.read_u32() {
                Ok(x) => Ok(TagPayload::Float(x)),
                Err(e) => Err(e),
            }
        } else if kind == 6 {
            match self.read_u64() {
                Ok(x) => Ok(TagPayload::Double(x)),
                Err(e) => Err(e),
            }
        } else if kind == 7 {
            match self.read_i8_array() {
                Ok(v) => Ok(TagPayload::ByteArray(v)),
                Err(e) => Err(e),
            }
        } else if kind == 8 {
            match self.read_string() {
                Ok(t) => Ok(TagPayload::String(t)),
                Err(e) => Err(e),
            }
        } else if kind == 9 {
            match self.read_list() {
                Ok(v) => Ok(TagPayload::List(v)),
                Err(e) => Err(e),
            }
        } else if kind == 10 {
            match self.read_compound() {
                Ok(v) => Ok(TagPayload::Compound(v)),
                Err(e) => Err(e),
            }
        } else if kind == 11 {
            match self.read_i32_array() {
                Ok(v) => Ok(TagPayload::IntArray(v)),
                Err(e) => Err(e),
            }
        } else {
            Ok(TagPayload::Unknown)
        }
    }

    /// Read one full tag: a header, then a payload of the header's kind.
    ///
    /// Succeeds exactly when the bytes of the whole tag are present, and then
    /// leaves the cursor just past its last byte; fails with
    /// [`NbtError::UnexpectedEnd`] exactly when they are not, as
    /// [`spec_tag`] says, and then puts the cursor back where the tag began:
    /// a failed decode consumes nothing.
    pub fn read_tag(&mut self) -> (r: Result<Tag, NbtError>)
        requires
            old(self).wf(),
        ensures
            final(self).wf(),
            final(self).input() == old(self).input(),
            old(self).at() <= final(self).at(),
            (match r {
                Ok(t) => spec_tag(old(self).input(), old(self).at()) == Some(
                    (t@, final(self).at()),
                ),
                Err(e) => spec_tag(old(self).input(), old(self).at()) is None && e
                    == NbtError::UnexpectedEnd && final(self).at() == old(self).at(),
            }),
    {
        let start = self.pos;
        let header = match self.read_header() {
            Ok(h) => h,
            Err(e) => {
                return Err(e);
            },
        };
        let payload = match self.read_payload(header.kind) {
            Ok(p) => p,
            Err(e) => {
                self.pos = start;
                return Err(e);
            },
        };
        Ok(Tag { name: header.name, payload })
    }
}

/// Appending one element on the right adds its view at the end of the
/// sequence of views.
pub proof fn lemma_tags_view_push(v: Seq<Tag>, t: Tag)
    ensures
        tags_view(v.push(t)) == tags_view(v) + seq![tag_view(t)],
    decreases v.len(),
{
    if v.len() == 0 {
        assert(v.push(t)[0] == t);
        assert(v.push(t).drop_first() =~= Seq::<Tag>::empty());
        assert(tags_view(Seq::<Tag>::empty()) == Seq::<TagV>::empty());
        assert(tags_view(v.push(t)) =~= tags_view(v) + seq![tag_view(t)]);
    } else {
        assert(v.push(t)[0] == v[0]);
        assert(v.push(t).drop_first() =~= v.drop_first().push(t));
        lemma_tags_view_push(v.drop_first(), t);
        assert(tags_view(v.push(t)) =~= tags_view(v) + seq![tag_view(t)]);
    }
}

/// Appending one element on the right adds its view at the end of the
/// sequence of views.
pub proof fn lemma_payloads_view_push(v: Seq<TagPayload>, p: TagPayload)
    ensures
        payloads_view(v.push(p)) == payloads_view(v) + seq![payload_view(p)],
    decreases v.len(),
{
    if v.len() == 0 {
        assert(v.push(p)[0] == p);
        assert(v.push(p).drop_first() =~= Seq::<TagPayload>::empty());
        assert(payloads_view(Seq::<TagPayload>::empty()) == Seq::<NodeV>::empty());
        assert(payloads_view(v.push(p)) =~= payloads_view(v) + seq![payload_view(p)]);
    } else {
        assert(v.push(p)[0] == v[0]);
        assert(v.push(p).drop_first() =~= v.drop_first().push(p));
        lemma_payloads_view_push(v.drop_first(), p);
        assert(payloads_view(v.push(p)) =~= payloads_view(v) + seq![payload_view(p)]);
    }
}

} // verus!
