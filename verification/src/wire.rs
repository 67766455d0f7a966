//! The protobuf wire format: varints, field keys and the five kinds of field value.
//!
//! A message on the wire is a sequence of fields. [`fields_bytes`] says which
//! bytes a sequence of fields is written as, [`parse_fields`] which fields a
//! byte string holds, and [`lemma_parse_of_encode`] that the second undoes the
//! first.

use crate::text;
use vstd::prelude::*;
use vstd::slice::{slice_subrange, slice_to_vec};
use vstd::string::StringExecFns;

verus! {

/// How deep messages and groups may be nested.
pub const NESTING: u32 = 100;

/// The largest field number that the wire format can carry.
pub const MAX_TAG: u32 = 0x1fff_ffff;

/// The value of one field, over a type `B` of byte strings.
#[verifier::ext_equal]
#[derive(Debug)]
pub enum WireValueOf<B> {
    Varint(u64),
    Fixed64(u64),
    Bytes(B),
    /// A group, whose contents are skipped.
    Group,
    Fixed32(u32),
}

/// One field: its number and its value.
#[verifier::ext_equal]
#[derive(Debug)]
pub struct FieldOf<B> {
    pub tag: u32,
    pub value: WireValueOf<B>,
}

/// The value of one field.
pub type WireValue = WireValueOf<Vec<u8>>;

/// One field.
pub type Field = FieldOf<Vec<u8>>;

/// The model of a [`Field`].
pub type FieldView = FieldOf<Seq<u8>>;

impl View for WireValueOf<Vec<u8>> {
    type V = WireValueOf<Seq<u8>>;

    open spec fn view(&self) -> WireValueOf<Seq<u8>> {
        match self {
            WireValueOf::Varint(v) => WireValueOf::Varint(*v),
            WireValueOf::Fixed64(v) => WireValueOf::Fixed64(*v),
            WireValueOf::Bytes(b) => WireValueOf::Bytes(b@),
            WireValueOf::Group => WireValueOf::Group,
            WireValueOf::Fixed32(v) => WireValueOf::Fixed32(*v),
        }
    }
}

impl View for FieldOf<Vec<u8>> {
    type V = FieldOf<Seq<u8>>;

    open spec fn view(&self) -> FieldOf<Seq<u8>> {
        FieldOf { tag: self.tag, value: self.value@ }
    }
}

/// The views of a vector of fields.
pub open spec fn field_views(fields: Seq<Field>) -> Seq<FieldView> {
    Seq::new(fields.len(), |i: int| fields[i]@)
}

// ---------------------------------------------------------------------------
// Varints
// ---------------------------------------------------------------------------

/// The varint bytes of `n`: seven bits a byte, the lowest first, with the top
/// bit set on every byte but the last.
pub open spec fn varint(n: nat) -> Seq<u8>
    decreases n,
{
    if n < 128 {
        seq![n as u8]
    } else {
        seq![(n % 128 + 128) as u8] + varint(n / 128)
    }
}

/// Reads a varint of which `i` bytes have been consumed already: its value and
/// the number of bytes it takes. There are at most ten bytes, and the tenth
/// holds a single bit.
pub open spec fn varint_at(b: Seq<u8>, i: nat) -> Option<(nat, nat)>
    decreases 10 - i,
{
    if i >= 10 || b.len() == 0 {
        None
    } else if b[0] < 128 {
        if i == 9 && b[0] > 1 {
            None
        } else {
            Some((b[0] as nat, 1nat))
        }
    } else {
        match varint_at(b.skip(1), i + 1) {
            Some((high, n)) => Some(((b[0] - 128) as nat + 128 * high, n + 1)),
            None => None,
        }
    }
}

/// Reads the varint at the start of `b`: its value and its length.
pub open spec fn read_varint(b: Seq<u8>) -> Option<(nat, nat)> {
    varint_at(b, 0)
}

/// One more than the largest value whose varint fits behind `i` bytes.
pub open spec fn varint_room(i: nat) -> nat
    decreases 9 - i,
{
    if i >= 9 {
        2
    } else {
        128 * varint_room(i + 1)
    }
}

proof fn lemma_varint_room_zero()
    ensures
        varint_room(0) == 0x1_0000_0000_0000_0000,
{
    assert(varint_room(9) == 2);
    assert(varint_room(8) == 0x100);
    assert(varint_room(7) == 0x8000);
    assert(varint_room(6) == 0x40_0000);
    assert(varint_room(5) == 0x2000_0000);
    assert(varint_room(4) == 0x10_0000_0000);
    assert(varint_room(3) == 0x800_0000_0000);
    assert(varint_room(2) == 0x4_0000_0000_0000);
    assert(varint_room(1) == 0x200_0000_0000_0000);
}

proof fn lemma_varint_at(n: nat, i: nat, rest: Seq<u8>)
    requires
        i < 10,
        n < varint_room(i),
    ensures
        varint_at(varint(n) + rest, i) == Some((n, varint(n).len())),
        varint(n).len() >= 1,
    decreases n,
{
    let b = varint(n) + rest;
    if n < 128 {
        assert(b[0] == n as u8);
    } else {
        assert(varint_room(9) == 2);
        lemma_varint_at(n / 128, i + 1, rest);
        assert(b[0] == (n % 128 + 128) as u8);
        assert(b.skip(1) =~= varint(n / 128) + rest);
    }
}

/// A varint written in front of anything reads back as its value.
pub proof fn lemma_read_varint(n: nat, rest: Seq<u8>)
    requires
        n <= u64::MAX,
    ensures
        read_varint(varint(n) + rest) == Some((n, varint(n).len())),
        varint(n).len() >= 1,
{
    lemma_varint_room_zero();
    lemma_varint_at(n, 0, rest);
}

/// A number below 128 takes one byte, and every seven bits more one byte more.
pub proof fn lemma_varint_len(n: nat)
    ensures
        1 <= varint(n).len() <= n / 128 + 1,
    decreases n,
{
    if n >= 128 {
        lemma_varint_len(n / 128);
    }
}

proof fn lemma_varint_at_len(b: Seq<u8>, i: nat)
    ensures
        varint_at(b, i) matches Some((v, n)) ==> 1 <= n <= b.len(),
    decreases 10 - i,
{
    if i < 10 && b.len() > 0 && b[0] >= 128 {
        lemma_varint_at_len(b.skip(1), i + 1);
    }
}

/// A varint that was read takes at least one byte, and no more than there are.
pub proof fn lemma_read_varint_len(b: Seq<u8>)
    ensures
        read_varint(b) matches Some((v, n)) ==> 1 <= n <= b.len(),
{
    lemma_varint_at_len(b, 0);
}

/// The error with which prost refuses bytes.
#[verifier::external_type_specification]
#[verifier::external_body]
pub struct ExDecodeError(prost::DecodeError);

/// What `ToString::to_string` gives of a `prost::DecodeError`.
pub uninterp spec fn decode_error_words(e: prost::DecodeError) -> Seq<char>;

/// Calls `prost::DecodeError::new`: the error that bytes are refused with, for a
/// cause, which stands in its words.
#[verifier::external_body]
pub(crate) fn decode_error(cause: String) -> (r: prost::DecodeError)
    ensures
        decode_error_words(r) == "failed to decode Protobuf message: "@ + cause@,
{
    prost::DecodeError::new(cause)
}

/// Calls `ToString::to_string` on a `prost::DecodeError`: the error in words.
#[verifier::external_body]
pub(crate) fn decode_error_text(e: &prost::DecodeError) -> (r: String)
    ensures
        r@ == decode_error_words(*e),
{
    e.to_string()
}

/// `Clone::clone` on a `prost::DecodeError`, which is derived: the clone holds what
/// the error holds.
pub assume_specification[ <prost::DecodeError as Clone>::clone ](e: &prost::DecodeError) -> (r:
    prost::DecodeError)
    ensures
        r == *e,
;

/// Calls `prost::encoding::encode_varint`, which appends the varint bytes of
/// `value` to the buffer.
#[verifier::external_body]
pub(crate) fn prost_encode_varint(value: u64, buf: &mut Vec<u8>)
    ensures
        final(buf)@ == old(buf)@ + varint(value as nat),
{
    prost::encoding::encode_varint(value, buf);
}

/// Calls `prost::encoding::decode_varint`, which reads the varint at the start
/// of the buffer and advances the buffer past it. It fails exactly where no
/// varint of a 64-bit value stands there.
#[verifier::external_body]
pub(crate) fn prost_decode_varint(bytes: &[u8]) -> (r: Result<(u64, &[u8]), prost::DecodeError>)
    ensures
        r is Ok <==> read_varint(bytes@) is Some,
        r matches Ok((v, rest)) ==> {
            &&& rest@.len() <= bytes@.len()
            &&& rest@ == bytes@.skip(bytes@.len() - rest@.len())
            &&& read_varint(bytes@) == Some((v as nat, (bytes@.len() - rest@.len()) as nat))
        },
{
    let mut buf = bytes;
    let value = prost::encoding::decode_varint(&mut buf)?;
    Ok((value, buf))
}

// ---------------------------------------------------------------------------
// Little-endian integers
// ---------------------------------------------------------------------------

/// The four little-endian bytes of `v`.
pub open spec fn le32(v: u32) -> Seq<u8> {
    seq![
        (v % 256) as u8,
        (v / 256 % 256) as u8,
        (v / 65536 % 256) as u8,
        (v / 16777216) as u8,
    ]
}

/// The eight little-endian bytes of `v`.
pub open spec fn le64(v: u64) -> Seq<u8> {
    le32((v % 0x1_0000_0000) as u32) + le32((v / 0x1_0000_0000) as u32)
}

/// The number that four little-endian bytes stand for.
pub open spec fn from_le32(b: Seq<u8>) -> u32 {
    (b[0] + 256 * b[1] + 65536 * b[2] + 16777216 * b[3]) as u32
}

/// The number that eight little-endian bytes stand for.
pub open spec fn from_le64(b: Seq<u8>) -> u64 {
    (from_le32(b.take(4)) + 0x1_0000_0000 * from_le32(b.skip(4))) as u64
}

/// Reading four little-endian bytes undoes writing them.
pub proof fn lemma_le32(v: u32)
    ensures
        le32(v).len() == 4,
        from_le32(le32(v)) == v,
{
}

/// Reading eight little-endian bytes undoes writing them.
pub proof fn lemma_le64(v: u64)
    ensures
        le64(v).len() == 8,
        from_le64(le64(v)) == v,
{
    let low = (v % 0x1_0000_0000) as u32;
    let high = (v / 0x1_0000_0000) as u32;
    lemma_le32(low);
    lemma_le32(high);
    assert(le64(v).take(4) =~= le32(low));
    assert(le64(v).skip(4) =~= le32(high));
}

/// The little-endian bytes of a 32-bit number.
pub fn le32_bytes(v: u32) -> (r: [u8; 4])
    ensures
        r@ == le32(v),
{
    let r: [u8; 4] = [
        (v % 256) as u8,
        (v / 256 % 256) as u8,
        (v / 65536 % 256) as u8,
        (v / 16777216) as u8,
    ];
    assert(r@ =~= le32(v));
    r
}

/// The number that the first four bytes of `b` stand for.
pub fn u32_from_le(b: &[u8]) -> (r: u32)
    requires
        b@.len() >= 4,
    ensures
        r == from_le32(b@.take(4)),
{
    b[0] as u32 + 256 * (b[1] as u32) + 65536 * (b[2] as u32) + 16777216 * (b[3] as u32)
}

/// The number that the first eight bytes of `b` stand for.
pub fn u64_from_le(b: &[u8]) -> (r: u64)
    requires
        b@.len() >= 8,
    ensures
        r == from_le64(b@.take(8)),
{
    let high = slice_subrange(b, 4, 8);
    assert(b@.take(8).take(4) =~= b@.take(4));
    assert(b@.take(8).skip(4) =~= high@.take(4));
    u32_from_le(b) as u64 + 0x1_0000_0000 * (u32_from_le(high) as u64)
}

// ---------------------------------------------------------------------------
// Fields
// ---------------------------------------------------------------------------

/// The bytes of a field key.
pub open spec fn key_bytes(tag: u32, wire_type: nat) -> Seq<u8> {
    varint(tag as nat * 8 + wire_type)
}

/// The bytes of one field. A group is never written.
pub open spec fn field_bytes(f: FieldView) -> Seq<u8> {
    match f.value {
        WireValueOf::Varint(v) => key_bytes(f.tag, 0) + varint(v as nat),
        WireValueOf::Fixed64(v) => key_bytes(f.tag, 1) + le64(v),
        WireValueOf::Bytes(b) => key_bytes(f.tag, 2) + varint(b.len()) + b,
        WireValueOf::Group => Seq::empty(),
        WireValueOf::Fixed32(v) => key_bytes(f.tag, 5) + le32(v),
    }
}

/// The bytes of a sequence of fields, one after the other.
pub open spec fn fields_bytes(fs: Seq<FieldView>) -> Seq<u8>
    decreases fs.len(),
{
    if fs.len() == 0 {
        Seq::empty()
    } else {
        field_bytes(fs[0]) + fields_bytes(fs.skip(1))
    }
}

/// Whether a field can be written.
pub open spec fn plain(f: FieldView) -> bool {
    1 <= f.tag <= MAX_TAG && f.value !is Group
}

/// Whether the length of a field can be written.
pub open spec fn small(f: FieldView) -> bool {
    f.value matches WireValueOf::Bytes(b) ==> b.len() <= u64::MAX
}

/// Whether a field can be written so that it reads back.
pub open spec fn encodable(f: FieldView) -> bool {
    plain(f) && small(f)
}

/// Whether every field of a sequence can be written so that it reads back.
pub open spec fn all_encodable(fs: Seq<FieldView>) -> bool {
    forall|i: int| 0 <= i < fs.len() ==> encodable(#[trigger] fs[i])
}

/// Reads the key of a field: its number, its wire type and its length. The key is
/// a varint of 32 bits with a field number of at least one.
pub open spec fn read_key(b: Seq<u8>) -> Option<(u32, nat, nat)> {
    match read_varint(b) {
        Some((key, n)) => if key > u32::MAX || key / 8 == 0 {
            None
        } else {
            Some(((key / 8) as u32, key % 8, n))
        },
        None => None,
    }
}

/// The length of a value that is skipped, with `room` levels left for groups.
pub open spec fn skipped(tag: u32, wire_type: nat, b: Seq<u8>, room: nat) -> Option<nat>
    decreases room, b.len(), 1nat,
{
    if room == 0 {
        None
    } else if wire_type == 0 {
        match read_varint(b) {
            Some((_, n)) => Some(n),
            None => None,
        }
    } else if wire_type == 1 {
        if b.len() < 8 {
            None
        } else {
            Some(8nat)
        }
    } else if wire_type == 2 {
        match read_varint(b) {
            Some((len, n)) => if n + len > b.len() {
                None
            } else {
                Some(n + len)
            },
            None => None,
        }
    } else if wire_type == 3 {
        group_rest(tag, b, room)
    } else if wire_type == 5 {
        if b.len() < 4 {
            None
        } else {
            Some(4nat)
        }
    } else {
        None
    }
}

/// The length of the rest of a group: its fields, each with one level less left,
/// and the end key with the number of the group.
pub open spec fn group_rest(tag: u32, b: Seq<u8>, room: nat) -> Option<nat>
    decreases room, b.len(), 0nat,
{
    match read_key(b) {
        Some((inner, wire_type, n)) => if wire_type == 4 {
            if inner == tag {
                Some(n)
            } else {
                None
            }
        } else if room == 0 {
            None
        } else {
            match skipped(inner, wire_type, b.skip(n as int), (room - 1) as nat) {
                Some(m) => if n == 0 || n + m > b.len() {
                    None
                } else {
                    match group_rest(tag, b.skip((n + m) as int), room) {
                        Some(k) => Some(n + m + k),
                        None => None,
                    }
                },
                None => None,
            }
        },
        None => None,
    }
}

/// Reads the value of a field behind its key: the value and its length.
pub open spec fn parse_value(tag: u32, wire_type: nat, b: Seq<u8>, room: nat) -> Option<(
    WireValueOf<Seq<u8>>,
    nat,
)> {
    if wire_type == 0 {
        match read_varint(b) {
            Some((v, n)) => Some((WireValueOf::Varint(v as u64), n)),
            None => None,
        }
    } else if wire_type == 1 {
        if b.len() < 8 {
            None
        } else {
            Some((WireValueOf::Fixed64(from_le64(b.take(8))), 8nat))
        }
    } else if wire_type == 2 {
        match read_varint(b) {
            Some((len, n)) => if n + len > b.len() {
                None
            } else {
                Some((WireValueOf::Bytes(b.subrange(n as int, (n + len) as int)), n + len))
            },
            None => None,
        }
    } else if wire_type == 3 {
        match skipped(tag, 3, b, room) {
            Some(n) => Some((WireValueOf::Group, n)),
            None => None,
        }
    } else if wire_type == 5 {
        if b.len() < 4 {
            None
        } else {
            Some((WireValueOf::Fixed32(from_le32(b.take(4))), 4nat))
        }
    } else {
        None
    }
}

/// Reads the field at the start of `b`: the field and its length. The wire types
/// 0, 1, 2, 3 and 5 start a field.
pub open spec fn parse_field(b: Seq<u8>, room: nat) -> Option<(FieldView, nat)> {
    match read_key(b) {
        Some((tag, wire_type, n)) => match parse_value(tag, wire_type, b.skip(n as int), room) {
            Some((value, m)) => Some((FieldOf { tag, value }, n + m)),
            None => None,
        },
        None => None,
    }
}

/// The fields that a byte string holds, if it is made of whole fields; groups may
/// be nested `room` levels deep.
pub open spec fn parse_fields(b: Seq<u8>, room: nat) -> Option<Seq<FieldView>>
    decreases b.len(),
{
    if b.len() == 0 {
        Some(Seq::empty())
    } else {
        match parse_field(b, room) {
            Some((f, n)) => if n == 0 || n > b.len() {
                None
            } else {
                match parse_fields(b.skip(n as int), room) {
                    Some(fs) => Some(seq![f] + fs),
                    None => None,
                }
            },
            None => None,
        }
    }
}

/// A field written in front of anything reads back as that field.
pub proof fn lemma_parse_field(f: FieldView, rest: Seq<u8>, room: nat)
    requires
        encodable(f),
    ensures
        parse_field(field_bytes(f) + rest, room) == Some((f, field_bytes(f).len())),
        field_bytes(f).len() >= 1,
{
    let b = field_bytes(f) + rest;
    let wire_type: nat = match f.value {
        WireValueOf::Varint(_) => 0,
        WireValueOf::Fixed64(_) => 1,
        WireValueOf::Bytes(_) => 2,
        WireValueOf::Group => 3,
        WireValueOf::Fixed32(_) => 5,
    };
    let key = f.tag as nat * 8 + wire_type;
    let kb = key_bytes(f.tag, wire_type);
    let body = match f.value {
        WireValueOf::Varint(v) => varint(v as nat),
        WireValueOf::Fixed64(v) => le64(v),
        WireValueOf::Bytes(x) => varint(x.len()) + x,
        WireValueOf::Group => Seq::empty(),
        WireValueOf::Fixed32(v) => le32(v),
    };
    assert(field_bytes(f) =~= kb + body);
    assert(b =~= kb + (body + rest));
    lemma_read_varint(key, body + rest);
    assert(b.skip(kb.len() as int) =~= body + rest);
    assert(key / 8 == f.tag && key % 8 == wire_type);
    match f.value {
        WireValueOf::Varint(v) => {
            lemma_read_varint(v as nat, rest);
        },
        WireValueOf::Fixed64(v) => {
            lemma_le64(v);
            assert((body + rest).take(8) =~= le64(v));
        },
        WireValueOf::Bytes(x) => {
            lemma_read_varint(x.len(), x + rest);
            let n = varint(x.len()).len();
            assert(body + rest =~= varint(x.len()) + (x + rest));
            assert((body + rest).subrange(n as int, (n + x.len()) as int) =~= x);
        },
        WireValueOf::Group => {},
        WireValueOf::Fixed32(v) => {
            lemma_le32(v);
            assert((body + rest).take(4) =~= le32(v));
        },
    }
}

/// Parsing undoes writing: fields that can be written read back as they were.
pub proof fn lemma_parse_of_encode(fs: Seq<FieldView>, room: nat)
    requires
        all_encodable(fs),
    ensures
        parse_fields(fields_bytes(fs), room) == Some(fs),
    decreases fs.len(),
{
    if fs.len() > 0 {
        let rest = fields_bytes(fs.skip(1));
        let b = fields_bytes(fs);
        lemma_parse_field(fs[0], rest, room);
        assert(forall|i: int| 0 <= i < fs.skip(1).len() ==> #[trigger] fs.skip(1)[i] == fs[i + 1]);
        lemma_parse_of_encode(fs.skip(1), room);
        assert(b.skip(field_bytes(fs[0]).len() as int) =~= rest);
        assert(seq![fs[0]] + fs.skip(1) =~= fs);
    }
}

/// The fields that a byte string holds have numbers in range.
pub proof fn lemma_parsed_tags(b: Seq<u8>, room: nat)
    ensures
        parse_fields(b, room) matches Some(fs) ==> forall|i: int|
            0 <= i < fs.len() ==> 1 <= (#[trigger] fs[i]).tag <= MAX_TAG,
    decreases b.len(),
{
    if b.len() > 0 {
        if let Some((f, n)) = parse_field(b, room) {
            if 0 < n <= b.len() {
                lemma_parsed_tags(b.skip(n as int), room);
                assert(1 <= f.tag <= MAX_TAG);
            }
        }
    }
}

/// The bytes of two runs of fields are the bytes of the first, then those of
/// the second.
pub proof fn lemma_fields_bytes_concat(a: Seq<FieldView>, b: Seq<FieldView>)
    ensures
        fields_bytes(a + b) == fields_bytes(a) + fields_bytes(b),
    decreases a.len(),
{
    if a.len() == 0 {
        assert(a + b =~= b);
        assert(fields_bytes(a + b) =~= fields_bytes(a) + fields_bytes(b));
    } else {
        assert((a + b).skip(1) =~= a.skip(1) + b);
        lemma_fields_bytes_concat(a.skip(1), b);
        assert(fields_bytes(a + b) =~= fields_bytes(a) + fields_bytes(b));
    }
}

/// The bytes of fields and one more.
pub proof fn lemma_fields_bytes_push(fs: Seq<FieldView>, f: FieldView)
    ensures
        fields_bytes(fs.push(f)) == fields_bytes(fs) + field_bytes(f),
{
    lemma_fields_bytes_concat(fs, seq![f]);
    assert(fs.push(f) =~= fs + seq![f]);
    assert(seq![f].skip(1) =~= Seq::empty());
    assert(fields_bytes(seq![f].skip(1)) =~= Seq::empty());
    assert(fields_bytes(seq![f]) =~= field_bytes(f));
}

/// In a byte string whose length can be written, every length can.
pub proof fn lemma_small(fs: Seq<FieldView>)
    requires
        fields_bytes(fs).len() <= u64::MAX,
    ensures
        forall|i: int| 0 <= i < fs.len() ==> small(#[trigger] fs[i]),
    decreases fs.len(),
{
    if fs.len() > 0 {
        lemma_small(fs.skip(1));
        assert forall|i: int| 0 <= i < fs.len() implies small(#[trigger] fs[i]) by {
            if i > 0 {
                assert(fs[i] == fs.skip(1)[i - 1]);
            }
        }
    }
}

pub(crate) proof fn lemma_fields_bytes_one(f: FieldView)
    ensures
        fields_bytes(seq![f]) == field_bytes(f),
{
    assert(seq![f].skip(1) =~= Seq::empty());
    assert(fields_bytes(seq![f].skip(1)) =~= Seq::empty());
    assert(fields_bytes(seq![f]) =~= field_bytes(f));
}

fn skip_value(tag: u32, wire_type: u64, b: &[u8], room: u32) -> (r: Option<&[u8]>)
    ensures
        r is Some <==> (skipped(tag, wire_type as nat, b@, room as nat) matches Some(n) && n
            <= b@.len()),
        r matches Some(rest) ==> {
            &&& rest@.len() <= b@.len()
            &&& rest@ == b@.skip(b@.len() - rest@.len())
            &&& skipped(tag, wire_type as nat, b@, room as nat) == Some(
                (b@.len() - rest@.len()) as nat,
            )
        },
    decreases room, 1nat,
{
    proof {
        lemma_read_varint_len(b@);
    }
    if room == 0 {
        None
    } else if wire_type == 0 {
        match prost_decode_varint(b) {
            Ok((_, rest)) => Some(rest),
            Err(_) => None,
        }
    } else if wire_type == 1 {
        if b.len() < 8 {
            return None;
        }
        let rest = slice_subrange(b, 8, b.len());
        assert(rest@ =~= b@.skip(8));
        Some(rest)
    } else if wire_type == 2 {
        match prost_decode_varint(b) {
            Ok((len, rest)) => {
                if len > rest.len() as u64 {
                    return None;
                }
                let after = slice_subrange(rest, len as usize, rest.len());
                assert(after@ =~= b@.skip(b@.len() - rest@.len() + len));
                Some(after)
            },
            Err(_) => None,
        }
    } else if wire_type == 3 {
        skip_group(tag, b, room)
    } else if wire_type == 5 {
        if b.len() < 4 {
            return None;
        }
        let rest = slice_subrange(b, 4, b.len());
        assert(rest@ =~= b@.skip(4));
        Some(rest)
    } else {
        None
    }
}

fn skip_group(tag: u32, b: &[u8], room: u32) -> (r: Option<&[u8]>)
    requires
        room > 0,
    ensures
        r is Some <==> (group_rest(tag, b@, room as nat) matches Some(n) && n <= b@.len()),
        r matches Some(rest) ==> {
            &&& rest@.len() <= b@.len()
            &&& rest@ == b@.skip(b@.len() - rest@.len())
            &&& group_rest(tag, b@, room as nat) == Some((b@.len() - rest@.len()) as nat)
        },
    decreases room, 0nat,
{
    let mut rest = b;
    assert(b@.skip(0) =~= b@);
    loop
        invariant
            room > 0,
            rest@.len() <= b@.len(),
            rest@ == b@.skip(b@.len() - rest@.len()),
            group_rest(tag, b@, room as nat) == match group_rest(tag, rest@, room as nat) {
                Some(k) => Some((b@.len() - rest@.len() + k) as nat),
                None => None,
            },
        decreases rest@.len(),
    {
        proof {
            lemma_read_varint_len(rest@);
        }
        let (key, body) = match prost_decode_varint(rest) {
            Ok(x) => x,
            Err(_) => return None,
        };
        if key > u32::MAX as u64 || key / 8 == 0 {
            return None;
        }
        let inner = (key / 8) as u32;
        assert(read_key(rest@) == Some(
            (inner, (key % 8) as nat, (rest@.len() - body@.len()) as nat),
        ));
        if key % 8 == 4 {
            if inner != tag {
                return None;
            }
            assert(body@ =~= b@.skip(b@.len() - body@.len()));
            return Some(body);
        }
        match skip_value(inner, key % 8, body, room - 1) {
            Some(after) => {
                assert(after@ =~= rest@.skip(rest@.len() - after@.len()));
                assert(after@ =~= b@.skip(b@.len() - after@.len()));
                rest = after;
            },
            None => return None,
        }
    }
}

fn underflow() -> (r: prost::DecodeError)
    ensures
        decode_error_words(r) == "failed to decode Protobuf message: "@ + "buffer underflow"@,
{
    decode_error(String::from_str("buffer underflow"))
}

fn read_value(tag: u32, wire_type: u64, b: &[u8], room: u32) -> (r: Result<
    (WireValue, &[u8]),
    prost::DecodeError,
>)
    ensures
        r is Ok <==> (parse_value(tag, wire_type as nat, b@, room as nat) matches Some((v, n)) && n
            <= b@.len()),
        r matches Ok((value, rest)) ==> {
            &&& rest@.len() <= b@.len()
            &&& rest@ == b@.skip(b@.len() - rest@.len())
            &&& parse_value(tag, wire_type as nat, b@, room as nat) == Some(
                (value@, (b@.len() - rest@.len()) as nat),
            )
        },
{
    proof {
        lemma_read_varint_len(b@);
    }
    if wire_type == 0 {
        match prost_decode_varint(b) {
            Ok((v, rest)) => Ok((WireValueOf::Varint(v), rest)),
            Err(e) => Err(e),
        }
    } else if wire_type == 1 {
        if b.len() < 8 {
            return Err(underflow());
        }
        let rest = slice_subrange(b, 8, b.len());
        assert(rest@ =~= b@.skip(8));
        Ok((WireValueOf::Fixed64(u64_from_le(b)), rest))
    } else if wire_type == 2 {
        match prost_decode_varint(b) {
            Ok((len, rest)) => {
                if len > rest.len() as u64 {
                    return Err(underflow());
                }
                let len = len as usize;
                let body = slice_subrange(rest, 0, len);
                let after = slice_subrange(rest, len, rest.len());
                let ghost n = b@.len() - rest@.len();
                assert(body@ =~= b@.subrange(n, n + len));
                assert(after@ =~= b@.skip(n + len));
                Ok((WireValueOf::Bytes(slice_to_vec(body)), after))
            },
            Err(e) => Err(e),
        }
    } else if wire_type == 3 {
        match skip_value(tag, 3, b, room) {
            Some(rest) => Ok((WireValueOf::Group, rest)),
            None => Err(decode_error(String::from_str("invalid group"))),
        }
    } else if wire_type == 5 {
        if b.len() < 4 {
            return Err(underflow());
        }
        let rest = slice_subrange(b, 4, b.len());
        assert(rest@ =~= b@.skip(4));
        Ok((WireValueOf::Fixed32(u32_from_le(b)), rest))
    } else if wire_type == 4 {
        Err(decode_error(String::from_str("unexpected end group tag")))
    } else {
        Err(decode_error(text::number_between("invalid wire type value: ", wire_type, "")))
    }
}

fn read_field(b: &[u8], room: u32) -> (r: Result<(Field, &[u8]), prost::DecodeError>)
    ensures
        r is Ok <==> (parse_field(b@, room as nat) matches Some((f, n)) && n <= b@.len()),
        r matches Ok((f, rest)) ==> {
            &&& rest@.len() < b@.len()
            &&& rest@ == b@.skip(b@.len() - rest@.len())
            &&& parse_field(b@, room as nat) == Some((f@, (b@.len() - rest@.len()) as nat))
        },
{
    proof {
        lemma_read_varint_len(b@);
    }
    match prost_decode_varint(b) {
        Ok((key, rest)) => {
            if key > u32::MAX as u64 {
                return Err(decode_error(text::number_between("invalid key value: ", key, "")));
            }
            if key / 8 == 0 {
                return Err(decode_error(String::from_str("invalid tag value: 0")));
            }
            let tag = (key / 8) as u32;
            match read_value(tag, key % 8, rest, room) {
                Ok((value, after)) => {
                    assert(after@ =~= b@.skip(b@.len() - after@.len()));
                    Ok((FieldOf { tag, value }, after))
                },
                Err(e) => Err(e),
            }
        },
        Err(e) => Err(e),
    }
}

/// Splits a byte string into its fields.
pub fn decode_fields(bytes: &[u8]) -> (r: Result<Vec<Field>, prost::DecodeError>)
    ensures
        r is Ok <==> parse_fields(bytes@, NESTING as nat) is Some,
        r matches Ok(fields) ==> parse_fields(bytes@, NESTING as nat) == Some(
            field_views(fields@),
        ),
{
    decode_fields_within(bytes, NESTING)
}

/// Splits a byte string into its fields; groups may be nested `room` levels deep.
pub(crate) fn decode_fields_within(bytes: &[u8], room: u32) -> (r: Result<
    Vec<Field>,
    prost::DecodeError,
>)
    ensures
        r is Ok <==> parse_fields(bytes@, room as nat) is Some,
        r matches Ok(fields) ==> parse_fields(bytes@, room as nat) == Some(field_views(fields@)),
{
    let mut fields: Vec<Field> = Vec::new();
    let mut rest = bytes;
    assert(forall|fs: Seq<FieldView>| #[trigger] (field_views(fields@) + fs) =~= fs);
    while rest.len() > 0
        invariant
            parse_fields(bytes@, room as nat) is Some <==> parse_fields(rest@, room as nat) is Some,
            parse_fields(rest@, room as nat) matches Some(fs) ==> parse_fields(
                bytes@,
                room as nat,
            ) == Some(field_views(fields@) + fs),
        decreases rest@.len(),
    {
        match read_field(rest, room) {
            Ok((f, after)) => {
                let ghost before = field_views(fields@);
                fields.push(f);
                proof {
                    assert(field_views(fields@) =~= before.push(f@));
                    if let Some(fs) = parse_fields(after@, room as nat) {
                        assert(before + (seq![f@] + fs) =~= field_views(fields@) + fs);
                    }
                }
                rest = after;
            },
            Err(e) => {
                return Err(e);
            },
        }
    }
    assert(field_views(fields@) + Seq::<FieldView>::empty() =~= field_views(fields@));
    Ok(fields)
}

// ---------------------------------------------------------------------------
// What bytes on the wire stand for
// ---------------------------------------------------------------------------

/// The number that bytes stand for of which each counts seven bits, the lowest first.
pub open spec fn digits(b: Seq<u8>) -> nat
    decreases b.len(),
{
    if b.len() == 0 {
        0
    } else {
        (b[0] % 128) as nat + 128 * digits(b.skip(1))
    }
}

/// The bytes of a varint count to its value, the top bit is set on all but the last,
/// and there is no byte more than needed.
pub proof fn lemma_varint_bytes(n: nat)
    ensures
        varint(n).len() >= 1,
        digits(varint(n)) == n,
        forall|i: int|
            0 <= i < varint(n).len() ==> (#[trigger] varint(n)[i] >= 128 <==> i < varint(n).len()
                - 1),
        varint(n).len() > 1 ==> varint(n).last() != 0,
    decreases n,
{
    if n < 128 {
        assert(varint(n).skip(1) =~= Seq::empty());
        assert(digits(varint(n).skip(1)) == 0);
    } else {
        lemma_varint_bytes(n / 128);
        assert(varint(n).skip(1) =~= varint(n / 128));
        assert(varint(n).last() == varint(n / 128).last());
        assert forall|i: int| 0 <= i < varint(n).len() implies (#[trigger] varint(n)[i] >= 128 <==> i
            < varint(n).len() - 1) by {
            if i > 0 {
                assert(varint(n)[i] == varint(n / 128)[i - 1]);
            }
        }
    }
}

proof fn lemma_varint_at_bytes(b: Seq<u8>, i: nat)
    ensures
        varint_at(b, i) matches Some((v, n)) ==> 1 <= n <= b.len() && i + n <= 10 && v == digits(
            b.take(n as int),
        ) && v < varint_room(i) && b[n - 1] < 128 && (forall|k: int|
            0 <= k < n - 1 ==> #[trigger] b[k] >= 128),
        forall|k: int|
            0 <= k < b.len() && i + k < 9 && #[trigger] b[k] < 128 ==> varint_at(b, i) is Some,
        i <= 9 && b.len() >= 10 - i && (forall|k: int| 0 <= k < 9 - i ==> #[trigger] b[k] >= 128)
            ==> (varint_at(b, i) is Some <==> b[9 - i] <= 1),
    decreases 10 - i,
{
    if i < 10 && b.len() > 0 {
        assert(varint_room(9) == 2);
        if b[0] < 128 {
            assert(b.take(1).skip(1) =~= Seq::empty());
            assert(digits(b.take(1).skip(1)) == 0);
            if i < 9 {
                lemma_varint_room_least(i + 1);
            }
        } else {
            let c = b.skip(1);
            lemma_varint_at_bytes(c, i + 1);
            if let Some((high, n)) = varint_at(c, i + 1) {
                assert(b.take(n as int + 1).skip(1) =~= c.take(n as int));
                assert(b[n as int] == c[n - 1]);
                assert forall|k: int| 0 <= k < n implies #[trigger] b[k] >= 128 by {
                    if k > 0 {
                        assert(b[k] == c[k - 1]);
                    }
                }
            }
            assert forall|k: int|
                0 <= k < b.len() && i + k < 9 && #[trigger] b[k] < 128 implies varint_at(
                b,
                i,
            ) is Some by {
                assert(c[k - 1] == b[k]);
            }
            if i < 9 && b.len() >= 10 - i && (forall|k: int|
                0 <= k < 9 - i ==> #[trigger] b[k] >= 128) {
                assert forall|k: int| 0 <= k < 9 - (i + 1) implies #[trigger] c[k] >= 128 by {
                    assert(c[k] == b[k + 1]);
                }
                assert(c[9 - (i + 1)] == b[9 - i]);
            }
        }
    }
}

proof fn lemma_varint_room_least(i: nat)
    ensures
        varint_room(i) >= 2,
    decreases 9 - i,
{
    if i < 9 {
        lemma_varint_room_least(i + 1);
    }
}

/// A varint that is read ends at the first byte whose top bit is clear and is what the
/// bytes up to there count to. It is read where such a byte is among the first nine, or
/// where the tenth holds a single bit.
pub proof fn lemma_varint_read(b: Seq<u8>)
    ensures
        read_varint(b) matches Some((v, n)) ==> 1 <= n <= 10 && n <= b.len() && v == digits(
            b.take(n as int),
        ) && v <= 0xffff_ffff_ffff_ffff && b[n - 1] < 128 && (forall|k: int|
            0 <= k < n - 1 ==> #[trigger] b[k] >= 128),
        forall|k: int|
            0 <= k < 9 && k < b.len() && #[trigger] b[k] < 128 ==> read_varint(b) is Some,
        b.len() >= 10 && (forall|k: int| 0 <= k < 9 ==> #[trigger] b[k] >= 128) ==> (read_varint(
            b,
        ) is Some <==> b[9] <= 1),
{
    lemma_varint_room_zero();
    lemma_varint_at_bytes(b, 0);
}

/// How fields are written: the number of the field, eight times, with the wire type
/// added; then the value. The bytes of fixed size come lowest first, and a byte string
/// comes behind its length.
pub proof fn lemma_field_written(tag: u32, v: u64, x: u32, b: Seq<u8>)
    ensures
        field_bytes(FieldOf { tag, value: WireValueOf::Varint(v) }) == varint(8 * tag as nat)
            + varint(v as nat),
        ({
            let w = field_bytes(FieldOf { tag, value: WireValueOf::Fixed64(v) });
            let n = varint(8 * tag as nat + 1).len() as int;
            w.len() == n + 8 && w.take(n) == varint(8 * tag as nat + 1) && v == w[n] + 0x100 * w[n
                + 1] + 0x1_0000 * w[n + 2] + 0x100_0000 * w[n + 3] + 0x1_0000_0000 * w[n + 4]
                + 0x100_0000_0000 * w[n + 5] + 0x1_0000_0000_0000 * w[n + 6]
                + 0x100_0000_0000_0000 * w[n + 7]
        }),
        field_bytes(FieldOf { tag, value: WireValueOf::Bytes(b) }) == varint(8 * tag as nat + 2)
            + varint(b.len()) + b,
        ({
            let w = field_bytes(FieldOf { tag, value: WireValueOf::Fixed32(x) });
            let n = varint(8 * tag as nat + 5).len() as int;
            w.len() == n + 4 && w.take(n) == varint(8 * tag as nat + 5) && x == w[n] + 0x100 * w[n
                + 1] + 0x1_0000 * w[n + 2] + 0x100_0000 * w[n + 3]
        }),
{
    lemma_le32(x);
    let low = (v % 0x1_0000_0000) as u32;
    let high = (v / 0x1_0000_0000) as u32;
    lemma_le32(low);
    lemma_le32(high);
    assert(v == low + 0x1_0000_0000 * high);
    let k5 = varint(8 * tag as nat + 5);
    assert((k5 + le32(x)).take(k5.len() as int) =~= k5);
    let k1 = varint(8 * tag as nat + 1);
    let w = k1 + le64(v);
    let n = k1.len() as int;
    assert(w.take(n) =~= k1);
    assert forall|i: int| 0 <= i < 4 implies #[trigger] w[n + i] == le32(low)[i] && w[n + i + 4]
        == le32(high)[i] by {};
    assert(w[n + 4] == le32(high)[0]);
    assert(w[n + 5] == le32(high)[1]);
    assert(w[n + 6] == le32(high)[2]);
    assert(w[n + 7] == le32(high)[3]);
}

/// A byte string is read as fields only where nothing is left over: fields that are
/// written and then cut short inside the last field are refused.
pub proof fn lemma_nothing_left(fs: Seq<FieldView>, f: FieldView, n: int, room: nat)
    requires
        all_encodable(fs),
        encodable(f),
        0 < n < field_bytes(f).len(),
    ensures
        parse_fields(fields_bytes(fs) + field_bytes(f).take(n), room) is None,
    decreases fs.len(),
{
    let part = field_bytes(f).take(n);
    let b = fields_bytes(fs) + part;
    if fs.len() == 0 {
        assert(b =~= part);
        lemma_cut_short(f, n, room);
    } else {
        let rest = fields_bytes(fs.skip(1)) + part;
        assert(b =~= field_bytes(fs[0]) + rest);
        lemma_parse_field(fs[0], rest, room);
        assert(forall|i: int| 0 <= i < fs.skip(1).len() ==> #[trigger] fs.skip(1)[i] == fs[i + 1]);
        lemma_nothing_left(fs.skip(1), f, n, room);
        assert(b.skip(field_bytes(fs[0]).len() as int) =~= rest);
    }
}

proof fn lemma_varint_cut(n: nat, k: int)
    requires
        n <= u64::MAX,
        0 <= k < varint(n).len(),
    ensures
        read_varint(varint(n).take(k)) is None,
{
    lemma_varint_bytes(n);
    let b = varint(n).take(k);
    lemma_varint_read(b);
    if let Some((v, m)) = read_varint(b) {
        assert(b[m - 1] == varint(n)[m - 1]);
    }
}

proof fn lemma_cut_short(f: FieldView, n: int, room: nat)
    requires
        encodable(f),
        0 < n < field_bytes(f).len(),
    ensures
        parse_fields(field_bytes(f).take(n), room) is None,
{
    let b = field_bytes(f).take(n);
    let wire_type: nat = match f.value {
        WireValueOf::Varint(_) => 0,
        WireValueOf::Fixed64(_) => 1,
        WireValueOf::Bytes(_) => 2,
        WireValueOf::Group => 3,
        WireValueOf::Fixed32(_) => 5,
    };
    let key = f.tag as nat * 8 + wire_type;
    let kb = key_bytes(f.tag, wire_type);
    let body = match f.value {
        WireValueOf::Varint(v) => varint(v as nat),
        WireValueOf::Fixed64(v) => le64(v),
        WireValueOf::Bytes(x) => varint(x.len()) + x,
        WireValueOf::Group => Seq::empty(),
        WireValueOf::Fixed32(v) => le32(v),
    };
    assert(field_bytes(f) =~= kb + body);
    if n < kb.len() {
        assert(b =~= kb.take(n));
        lemma_varint_cut(key, n);
    } else {
        let k = n - kb.len();
        assert(b =~= kb + body.take(k));
        lemma_read_varint(key, body.take(k));
        assert(b.skip(kb.len() as int) =~= body.take(k));
        assert(key / 8 == f.tag && key % 8 == wire_type);
        match f.value {
            WireValueOf::Varint(v) => {
                lemma_varint_cut(v as nat, k);
            },
            WireValueOf::Bytes(x) => {
                let lb = varint(x.len());
                if k < lb.len() {
                    assert(body.take(k) =~= lb.take(k));
                    lemma_varint_cut(x.len(), k);
                } else {
                    assert(body.take(k) =~= lb + x.take(k - lb.len()));
                    lemma_read_varint(x.len(), x.take(k - lb.len()));
                }
            },
            WireValueOf::Fixed64(v) => {
                lemma_le64(v);
            },
            WireValueOf::Fixed32(v) => {
                lemma_le32(v);
            },
            WireValueOf::Group => {},
        }
    }
}

/// A group of fields is passed over, whatever they are, up to the end key with the
/// number of the group.
pub proof fn lemma_group_passed_over(tag: u32, fs: Seq<FieldView>, rest: Seq<u8>, room: nat)
    requires
        1 <= tag <= MAX_TAG,
        all_encodable(fs),
        room >= 2,
    ensures
        ({
            let b = varint(8 * tag as nat + 3) + fields_bytes(fs) + varint(8 * tag as nat + 4);
            parse_field(b + rest, room) == Some(
                (FieldOf { tag, value: WireValueOf::<Seq<u8>>::Group }, b.len()),
            )
        }),
{
    let start = varint(8 * tag as nat + 3);
    let end = varint(8 * tag as nat + 4);
    let b = start + fields_bytes(fs) + end;
    let behind = fields_bytes(fs) + end + rest;
    assert(b + rest =~= start + behind);
    lemma_read_varint(8 * tag as nat + 3, behind);
    assert((b + rest).skip(start.len() as int) =~= behind);
    lemma_group_rest(tag, fs, rest, room);
}

proof fn lemma_skipped(b: Seq<u8>, f: FieldView, len: nat, room: nat)
    requires
        room >= 1,
        f.value !is Group,
        parse_field(b, room) == Some((f, len)),
    ensures
        read_key(b) is Some,
        ({
            let (tag, wire_type, n) = read_key(b)->0;
            wire_type != 4 && 1 <= n <= len && skipped(tag, wire_type, b.skip(n as int), room)
                == Some((len - n) as nat)
        }),
{
    lemma_read_varint_len(b);
}

proof fn lemma_group_rest(tag: u32, fs: Seq<FieldView>, rest: Seq<u8>, room: nat)
    requires
        1 <= tag <= MAX_TAG,
        all_encodable(fs),
        room >= 2,
    ensures
        ({
            let end = varint(8 * tag as nat + 4);
            group_rest(tag, fields_bytes(fs) + end + rest, room) == Some(
                fields_bytes(fs).len() + end.len(),
            )
        }),
    decreases fs.len(),
{
    let end = varint(8 * tag as nat + 4);
    let b = fields_bytes(fs) + end + rest;
    if fs.len() == 0 {
        assert(b =~= end + rest);
        lemma_read_varint(8 * tag as nat + 4, rest);
    } else {
        let f = fs[0];
        let more = fields_bytes(fs.skip(1)) + end + rest;
        assert(forall|i: int| 0 <= i < fs.skip(1).len() ==> #[trigger] fs.skip(1)[i] == fs[i + 1]);
        lemma_group_rest(tag, fs.skip(1), rest, room);
        assert(b =~= field_bytes(f) + more);
        lemma_parse_field(f, more, (room - 1) as nat);
        lemma_skipped(b, f, field_bytes(f).len(), (room - 1) as nat);
        assert(b.skip(field_bytes(f).len() as int) =~= more);
        assert(fields_bytes(fs).len() == field_bytes(f).len() + fields_bytes(fs.skip(1)).len());
    }
}

} // verus!
