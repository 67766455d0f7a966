//! Messages: values that are written as a sequence of fields.
//!
//! A message type says which fields it is written as and how one field read
//! from the wire is merged into it. Decoding starts from the blank message and
//! merges the fields in the order in which they stand; [`lemma_decode_of_encode`]
//! says that this gives back what was encoded.

use crate::wire::{
    self, decode_error, decode_fields_within, le32_bytes, prost_encode_varint, Field, FieldOf,
    FieldView, WireValueOf, MAX_TAG, NESTING,
};
use vstd::prelude::*;
use vstd::string::StringExecFns;

verus! {

/// A type with a wire form.
///
/// Everything is stated over the view of the type: `blank` is the message with
/// every field at its default, `merged` what one field makes of a message (or
/// `None` where the field's bytes do not fit its declared type), `fields` the
/// fields that a message is written as. `room` is how deep groups may still be
/// nested in the message.
pub trait Message: View + Sized {
    /// The message with every field at its default.
    spec fn blank() -> Self::V;

    /// The message after one more field was read, `None` where the field does not fit its
    /// type. A field that the message does not know changes nothing.
    spec fn merged(m: Self::V, f: FieldView, room: nat) -> Option<Self::V>;

    /// The fields that a message is written as, in their order.
    spec fn fields(m: Self::V) -> Seq<FieldView>;

    /// The message with every field at its default.
    fn new_blank() -> (m: Self)
        ensures
            m@ == Self::blank(),
    ;

    /// Merges one field; false where the field's bytes do not fit its type.
    fn merge_field(&mut self, f: Field, room: u32) -> (ok: bool)
        ensures
            ok <==> Self::merged(old(self)@, f@, room as nat) is Some,
            ok ==> Self::merged(old(self)@, f@, room as nat) == Some(final(self)@),
    ;

    /// The bytes of the message.
    fn encode_to_vec(&self) -> (bytes: Vec<u8>)
        ensures
            bytes@ == wire::fields_bytes(Self::fields(self@)),
    ;

    /// The number of bytes of the message.
    fn encoded_len(&self) -> (n: usize)
        ensures
            n == wire::fields_bytes(Self::fields(self@)).len(),
    {
        self.encode_to_vec().len()
    }
}

/// How deep groups may be nested in a message that is embedded in another.
pub open spec fn inner(room: nat) -> nat {
    if room == 0 {
        0
    } else {
        (room - 1) as nat
    }
}

/// How deep groups may be nested in a message that is embedded in another.
pub(crate) fn inner_room(room: u32) -> (r: u32)
    ensures
        r == inner(room as nat),
{
    if room == 0 {
        0
    } else {
        room - 1
    }
}

/// What a sequence of fields makes of a message.
pub open spec fn merged_all<M: Message>(m: M::V, fs: Seq<FieldView>, room: nat) -> Option<M::V>
    decreases fs.len(),
{
    if fs.len() == 0 {
        Some(m)
    } else {
        match merged_all::<M>(m, fs.drop_last(), room) {
            Some(n) => M::merged(n, fs.last(), room),
            None => None,
        }
    }
}

/// What the fields in a byte string make of a message.
#[verifier::opaque]
pub open spec fn merged_bytes<M: Message>(m: M::V, b: Seq<u8>, room: nat) -> Option<M::V> {
    match wire::parse_fields(b, room) {
        Some(fs) => merged_all::<M>(m, fs, room),
        None => None,
    }
}

/// The message that a byte string holds, if it holds one.
pub open spec fn decoded<M: Message>(b: Seq<u8>) -> Option<M::V> {
    decoded_within::<M>(b, NESTING as nat)
}

/// The message that a byte string holds; groups may be nested `room` levels deep.
pub open spec fn decoded_within<M: Message>(b: Seq<u8>, room: nat) -> Option<M::V> {
    merged_bytes::<M>(M::blank(), b, room)
}

/// The bytes that a message is written as.
pub open spec fn encoded<M: Message>(m: M::V) -> Seq<u8> {
    wire::fields_bytes(M::fields(m))
}

/// A message type whose values read back as they were written.
pub trait RoundTrip: Message {
    /// Whether a message reads back exactly.
    spec fn canonical(m: Self::V) -> bool;

    /// The message as it reads back: a float that is minus zero is left out like
    /// zero, and reads back as zero.
    spec fn settled(m: Self::V) -> Self::V;

    proof fn lemma_fields(m: Self::V)
        requires
            Self::canonical(m),
        ensures
            reads_as::<Self>(Self::fields(m), m),
    ;

    proof fn lemma_settled(m: Self::V)
        ensures
            Self::fields(Self::settled(m)) == Self::fields(m),
    ;

    proof fn lemma_blank()
        ensures
            Self::canonical(Self::settled(Self::blank())),
    ;

    proof fn lemma_merged(m: Self::V, f: FieldView, room: nat)
        requires
            Self::canonical(Self::settled(m)),
            1 <= f.tag <= MAX_TAG,
            Self::merged(m, f, room) is Some,
        ensures
            Self::canonical(Self::settled(Self::merged(m, f, room)->0)),
    ;
}

/// Decoding undoes encoding.
pub proof fn lemma_decode_of_encode<M: RoundTrip>(m: M::V)
    requires
        M::canonical(m),
        encoded::<M>(m).len() <= u64::MAX,
    ensures
        decoded::<M>(encoded::<M>(m)) == Some(m),
{
    lemma_decode_at::<M>(m, NESTING as nat);
}

/// Decoding undoes encoding, however deep groups may be nested.
proof fn lemma_decode_at<M: RoundTrip>(m: M::V, room: nat)
    requires
        M::canonical(m),
        encoded::<M>(m).len() <= u64::MAX,
    ensures
        merged_bytes::<M>(M::blank(), encoded::<M>(m), room) == Some(m),
{
    reveal(merged_bytes);
    reveal(reads_as);
    M::lemma_fields(m);
    wire::lemma_small(M::fields(m));
    wire::lemma_parse_of_encode(M::fields(m), room);
}

/// Decoding undoes encoding, up to the sign of zero.
pub proof fn lemma_decode_of_settled<M: RoundTrip>(m: M::V)
    requires
        M::canonical(M::settled(m)),
        encoded::<M>(m).len() <= u64::MAX,
    ensures
        decoded::<M>(encoded::<M>(m)) == Some(M::settled(m)),
{
    M::lemma_settled(m);
    lemma_decode_of_encode::<M>(M::settled(m));
}

/// What was decoded can be encoded and decoded again.
pub proof fn lemma_decoded<M: RoundTrip>(b: Seq<u8>)
    ensures
        decoded::<M>(b) matches Some(m) ==> M::canonical(M::settled(m)),
{
    if decoded::<M>(b) is Some {
        M::lemma_blank();
        lemma_merged_bytes::<M>(M::blank(), b, NESTING as nat);
    }
}

/// Merging keeps a message such that it reads back.
pub(crate) proof fn lemma_merged_bytes<M: RoundTrip>(m: M::V, b: Seq<u8>, room: nat)
    requires
        M::canonical(M::settled(m)),
        merged_bytes::<M>(m, b, room) is Some,
    ensures
        M::canonical(M::settled(merged_bytes::<M>(m, b, room)->0)),
{
    reveal(merged_bytes);
    wire::lemma_parsed_tags(b, room);
    lemma_merged_fields::<M>(m, wire::parse_fields(b, room)->0, room);
}

proof fn lemma_merged_fields<M: RoundTrip>(m: M::V, fs: Seq<FieldView>, room: nat)
    requires
        M::canonical(M::settled(m)),
        forall|i: int| 0 <= i < fs.len() ==> 1 <= (#[trigger] fs[i]).tag <= MAX_TAG,
        merged_all::<M>(m, fs, room) is Some,
    ensures
        M::canonical(M::settled(merged_all::<M>(m, fs, room)->0)),
    decreases fs.len(),
{
    if fs.len() > 0 {
        let before = fs.drop_last();
        assert(forall|i: int| 0 <= i < before.len() ==> #[trigger] before[i] == fs[i]);
        lemma_merged_fields::<M>(m, before, room);
        assert(1 <= fs[fs.len() - 1].tag <= MAX_TAG);
        M::lemma_merged(merged_all::<M>(m, before, room)->0, fs.last(), room);
    }
}

pub(crate) proof fn lemma_merged_push<M: Message>(
    m: M::V,
    fs: Seq<FieldView>,
    f: FieldView,
    room: nat,
)
    ensures
        merged_all::<M>(m, fs.push(f), room) == match merged_all::<M>(m, fs, room) {
            Some(n) => M::merged(n, f, room),
            None => None,
        },
{
    assert(fs.push(f).drop_last() =~= fs);
}

/// Once a prefix of the fields cannot be merged, the whole cannot.
proof fn lemma_merged_prefix<M: Message>(m: M::V, fs: Seq<FieldView>, i: int, room: nat)
    requires
        0 <= i <= fs.len(),
        merged_all::<M>(m, fs.take(i), room) is None,
    ensures
        merged_all::<M>(m, fs, room) is None,
    decreases fs.len() - i,
{
    if i == fs.len() {
        assert(fs.take(i) =~= fs);
    } else {
        assert(fs.take(i + 1).drop_last() =~= fs.take(i));
        lemma_merged_prefix::<M>(m, fs, i + 1, room);
    }
}

/// Merges the fields in `bytes` into a message. Groups may be nested `room` levels
/// deep.
pub fn merge_bytes<M: Message>(m: &mut M, bytes: &[u8], room: u32) -> (r: Result<
    (),
    prost::DecodeError,
>)
    ensures
        r is Ok <==> merged_bytes::<M>(old(m)@, bytes@, room as nat) is Some,
        r is Ok ==> merged_bytes::<M>(old(m)@, bytes@, room as nat) == Some(final(m)@),
{
    reveal(merged_bytes);
    let mut fields = match decode_fields_within(bytes, room) {
        Ok(fields) => fields,
        Err(e) => return Err(e),
    };
    let ghost all = fields@;
    let ghost fs = wire::field_views(all);
    let n: usize = fields.len();
    let mut i: usize = 0;
    assert(fs.take(0) =~= Seq::empty());
    while i < n
        invariant
            i <= n == all.len() == fields@.len(),
            fs == wire::field_views(all),
            wire::parse_fields(bytes@, room as nat) == Some(fs),
            forall|j: int| i <= j < n ==> fields@[j] == all[j],
            merged_all::<M>(old(m)@, fs.take(i as int), room as nat) == Some(m@),
        decreases n - i,
    {
        let mut f: Field = FieldOf { tag: 0, value: WireValueOf::Group };
        std::mem::swap(&mut f, &mut fields[i]);
        let ghost before = m@;
        assert(fs.take(i + 1).drop_last() =~= fs.take(i as int));
        assert(fs.take(i + 1).last() == f@);
        if !m.merge_field(f, room) {
            proof {
                reveal(merged_bytes);
                lemma_merged_prefix::<M>(old(m)@, fs, i + 1, room as nat);
            }
            return Err(decode_error(String::from_str("field not of its type")));
        }
        i += 1;
    }
    assert(fs.take(n as int) =~= fs);
    Ok(())
}

/// Reads the message that `bytes` holds.
pub fn decode<M: Message>(bytes: &[u8]) -> (r: Result<M, prost::DecodeError>)
    ensures
        r is Ok <==> decoded::<M>(bytes@) is Some,
        r matches Ok(m) ==> decoded::<M>(bytes@) == Some(m@),
{
    decode_within(bytes, NESTING)
}

/// Reads the message that `bytes` holds; groups may be nested `room` levels deep.
pub(crate) fn decode_within<M: Message>(bytes: &[u8], room: u32) -> (r: Result<
    M,
    prost::DecodeError,
>)
    ensures
        r is Ok <==> decoded_within::<M>(bytes@, room as nat) is Some,
        r matches Ok(m) ==> decoded_within::<M>(bytes@, room as nat) == Some(m@),
{
    let mut m = M::new_blank();
    match merge_bytes(&mut m, bytes, room) {
        Ok(()) => Ok(m),
        Err(e) => Err(e),
    }
}

// ---------------------------------------------------------------------------
// Writing fields
// ---------------------------------------------------------------------------

/// The field of an integer.
pub open spec fn varint_field(tag: u32, v: u64) -> FieldView {
    FieldOf { tag, value: WireValueOf::Varint(v) }
}

/// A truth value as a number.
pub open spec fn bool_number(b: bool) -> u64 {
    if b {
        1
    } else {
        0
    }
}

/// The field of a fixed-width integer.
pub open spec fn fixed32_field(tag: u32, v: u32) -> FieldView {
    FieldOf { tag, value: WireValueOf::Fixed32(v) }
}

/// The field of a byte string.
pub open spec fn bytes_field(tag: u32, b: Seq<u8>) -> FieldView {
    FieldOf { tag, value: WireValueOf::Bytes(b) }
}

/// `fs`, and behind it the field of an integer unless it is zero.
#[verifier::opaque]
pub open spec fn with_varint(fs: Seq<FieldView>, tag: u32, v: u64) -> Seq<FieldView> {
    if v == 0 {
        fs
    } else {
        fs.push(varint_field(tag, v))
    }
}

/// `fs`, and behind it the field of a truth value unless it is false.
#[verifier::opaque]
pub open spec fn with_bool(fs: Seq<FieldView>, tag: u32, b: bool) -> Seq<FieldView> {
    if b {
        fs.push(varint_field(tag, 1))
    } else {
        fs
    }
}

/// `fs`, and behind it the field of a fixed-width integer unless it is zero.
#[verifier::opaque]
pub open spec fn with_fixed32(fs: Seq<FieldView>, tag: u32, v: u32) -> Seq<FieldView> {
    if v == 0 {
        fs
    } else {
        fs.push(fixed32_field(tag, v))
    }
}

/// `fs`, and behind it the field of a float, given by its bits, unless it is
/// zero of either sign.
#[verifier::opaque]
pub open spec fn with_float(fs: Seq<FieldView>, tag: u32, bits: u32) -> Seq<FieldView> {
    if is_float_zero(bits) {
        fs
    } else {
        fs.push(fixed32_field(tag, bits))
    }
}

/// Whether the bits are those of a float that equals zero.
pub open spec fn is_float_zero(bits: u32) -> bool {
    bits == 0 || bits == 0x8000_0000
}

/// `fs`, and behind it the field of a byte string unless it is empty.
#[verifier::opaque]
pub open spec fn with_bytes(fs: Seq<FieldView>, tag: u32, b: Seq<u8>) -> Seq<FieldView> {
    if b.len() == 0 {
        fs
    } else {
        fs.push(bytes_field(tag, b))
    }
}

/// `fs`, and behind it the field of an integer that may be absent.
#[verifier::opaque]
pub open spec fn with_opt_varint(fs: Seq<FieldView>, tag: u32, v: Option<u32>) -> Seq<FieldView> {
    match v {
        Some(v) => fs.push(varint_field(tag, v as u64)),
        None => fs,
    }
}

/// `fs`, and behind it the field of a truth value that may be absent.
#[verifier::opaque]
pub open spec fn with_opt_bool(fs: Seq<FieldView>, tag: u32, v: Option<bool>) -> Seq<FieldView> {
    match v {
        Some(v) => fs.push(varint_field(tag, bool_number(v))),
        None => fs,
    }
}

/// `fs`, and behind it the field of an embedded message that may be absent.
#[verifier::opaque]
pub open spec fn with_message<M: Message>(
    fs: Seq<FieldView>,
    tag: u32,
    m: Option<M::V>,
) -> Seq<FieldView> {
    match m {
        Some(m) => fs.push(bytes_field(tag, encoded::<M>(m))),
        None => fs,
    }
}

/// `fs`, and behind it the field of a byte string that may be absent.
#[verifier::opaque]
pub open spec fn with_opt_bytes(
    fs: Seq<FieldView>,
    tag: u32,
    b: Option<Seq<u8>>,
) -> Seq<FieldView> {
    match b {
        Some(b) => fs.push(bytes_field(tag, b)),
        None => fs,
    }
}

/// `fs`, and behind it a field that may be absent.
#[verifier::opaque]
pub open spec fn with_opt_field(fs: Seq<FieldView>, f: Option<FieldView>) -> Seq<FieldView> {
    match f {
        Some(f) => fs.push(f),
        None => fs,
    }
}

/// The view of a value that may be absent.
pub open spec fn opt_view<T: View>(x: Option<T>) -> Option<T::V> {
    match x {
        Some(x) => Some(x@),
        None => None,
    }
}

/// The views of the values in a sequence.
pub open spec fn views<T: View>(xs: Seq<T>) -> Seq<T::V> {
    Seq::new(xs.len(), |i: int| xs[i]@)
}

/// The message, or the blank one where it is absent.
pub open spec fn or_blank<M: Message>(m: Option<M::V>) -> M::V {
    match m {
        Some(m) => m,
        None => M::blank(),
    }
}

/// The byte string, or the empty one where it is absent.
pub open spec fn or_empty(b: Option<Seq<u8>>) -> Seq<u8> {
    match b {
        Some(b) => b,
        None => Seq::empty(),
    }
}

/// Whether a message that may be absent reads back exactly.
pub open spec fn opt_canonical<M: RoundTrip>(m: Option<M::V>) -> bool {
    match m {
        Some(m) => M::canonical(m),
        None => true,
    }
}

/// A message that may be absent, as it reads back.
pub open spec fn opt_settled<M: RoundTrip>(m: Option<M::V>) -> Option<M::V> {
    match m {
        Some(m) => Some(M::settled(m)),
        None => None,
    }
}

/// Whether messages read back exactly.
pub open spec fn all_canonical<M: RoundTrip>(ms: Seq<M::V>) -> bool {
    forall|i: int| 0 <= i < ms.len() ==> M::canonical(#[trigger] ms[i])
}

/// Messages as they read back.
pub open spec fn all_settled<M: RoundTrip>(ms: Seq<M::V>) -> Seq<M::V> {
    ms.map_values(|m: M::V| M::settled(m))
}

/// A float, given by its bits, as it reads back.
pub open spec fn settled_float(bits: u32) -> u32 {
    if is_float_zero(bits) {
        0
    } else {
        bits
    }
}

/// The fields of a repeated message.
pub open spec fn message_fields<M: Message>(tag: u32, ms: Seq<M::V>) -> Seq<FieldView> {
    Seq::new(ms.len(), |i: int| bytes_field(tag, encoded::<M>(ms[i])))
}

/// The 64 bits that a signed integer is written as: its two's complement.
pub open spec fn int32_bits(v: i32) -> u64 {
    if v >= 0 {
        v as u64
    } else {
        (v + 0x1_0000_0000_0000_0000) as u64
    }
}

/// The low 32 bits, as an unsigned integer.
pub open spec fn as_uint32(v: u64) -> u32 {
    (v % 0x1_0000_0000) as u32
}

/// The low 32 bits, as a signed integer.
pub open spec fn as_int32(v: u64) -> i32 {
    let u = v % 0x1_0000_0000;
    if u < 0x8000_0000 {
        u as i32
    } else {
        (u - 0x1_0000_0000) as i32
    }
}

/// A signed integer reads back as it was written, and only zero is written as zero.
pub proof fn lemma_int32(v: i32)
    ensures
        as_int32(int32_bits(v)) == v,
        int32_bits(v) == 0 <==> v == 0,
{
}

pub(crate) fn int32_to_bits(v: i32) -> (r: u64)
    ensures
        r == int32_bits(v),
{
    if v >= 0 {
        v as u64
    } else {
        (v as i128 + 0x1_0000_0000_0000_0000) as u64
    }
}

pub(crate) fn to_uint32(v: u64) -> (r: u32)
    ensures
        r == as_uint32(v),
{
    (v % 0x1_0000_0000) as u32
}

pub(crate) fn to_int32(v: u64) -> (r: i32)
    ensures
        r == as_int32(v),
{
    let u: u64 = v % 0x1_0000_0000;
    if u < 0x8000_0000 {
        u as i32
    } else {
        (u as i64 - 0x1_0000_0000) as i32
    }
}

/// Whether a field is written as it is.
pub open spec fn writable(f: FieldView) -> bool {
    f.tag <= MAX_TAG && f.value !is Group
}

/// Collects the bytes of a message field by field.
pub struct FieldWriter {
    bytes: Vec<u8>,
    fields: Ghost<Seq<FieldView>>,
}

impl FieldWriter {
    /// The bytes are those of the fields.
    pub closed spec fn wf(&self) -> bool {
        self.bytes@ == wire::fields_bytes(self.fields@)
    }

    /// The fields written so far.
    pub closed spec fn fields(&self) -> Seq<FieldView> {
        self.fields@
    }

    pub(crate) fn new() -> (w: Self)
        ensures
            w.wf(),
            w.fields() == Seq::<FieldView>::empty(),
    {
        FieldWriter { bytes: Vec::new(), fields: Ghost(Seq::empty()) }
    }

    pub(crate) fn finish(self) -> (bytes: Vec<u8>)
        requires
            self.wf(),
        ensures
            bytes@ == wire::fields_bytes(self.fields()),
    {
        self.bytes
    }

    fn key(&mut self, tag: u32, wire_type: u64)
        requires
            tag <= MAX_TAG,
            wire_type < 8,
        ensures
            final(self).bytes@ == old(self).bytes@ + wire::key_bytes(tag, wire_type as nat),
            final(self).fields == old(self).fields,
    {
        prost_encode_varint(tag as u64 * 8 + wire_type, &mut self.bytes);
    }

    /// Writes the field of an integer.
    pub(crate) fn put_varint(&mut self, tag: u32, v: u64)
        requires
            old(self).wf(),
            tag <= MAX_TAG,
        ensures
            final(self).wf(),
            final(self).fields() == old(self).fields().push(varint_field(tag, v)),
    {
        let ghost before = self.bytes@;
        self.key(tag, 0);
        prost_encode_varint(v, &mut self.bytes);
        assert(self.bytes@ =~= before + wire::field_bytes(varint_field(tag, v)));
        self.pushed(Ghost(before), Ghost(varint_field(tag, v)));
    }

    /// Writes the field of a fixed-width integer.
    pub(crate) fn put_fixed32(&mut self, tag: u32, v: u32)
        requires
            old(self).wf(),
            tag <= MAX_TAG,
        ensures
            final(self).wf(),
            final(self).fields() == old(self).fields().push(fixed32_field(tag, v)),
    {
        let ghost before = self.bytes@;
        self.key(tag, 5);
        let le = le32_bytes(v);
        self.bytes.extend_from_slice(le.as_slice());
        assert(self.bytes@ =~= before + wire::field_bytes(fixed32_field(tag, v)));
        self.pushed(Ghost(before), Ghost(fixed32_field(tag, v)));
    }

    /// Writes the field of a fixed-width integer of 64 bits.
    fn put_fixed64(&mut self, tag: u32, v: u64)
        requires
            old(self).wf(),
            tag <= MAX_TAG,
        ensures
            final(self).wf(),
            final(self).fields() == old(self).fields().push(
                FieldOf { tag, value: WireValueOf::Fixed64(v) },
            ),
    {
        let ghost before = self.bytes@;
        self.key(tag, 1);
        let lo = le32_bytes((v % 0x1_0000_0000) as u32);
        let hi = le32_bytes((v / 0x1_0000_0000) as u32);
        self.bytes.extend_from_slice(lo.as_slice());
        self.bytes.extend_from_slice(hi.as_slice());
        assert(self.bytes@ =~= before + wire::field_bytes(
            FieldOf { tag, value: WireValueOf::Fixed64(v) },
        ));
        self.pushed(Ghost(before), Ghost(FieldOf { tag, value: WireValueOf::Fixed64(v) }));
    }

    /// Writes a field as it is. A group and a field whose number is out of
    /// range are left out.
    pub(crate) fn put_field(&mut self, f: &Field)
        requires
            old(self).wf(),
        ensures
            final(self).wf(),
            final(self).fields() == if writable(f@) {
                old(self).fields().push(f@)
            } else {
                old(self).fields()
            },
    {
        if f.tag > MAX_TAG {
            return;
        }
        match &f.value {
            WireValueOf::Varint(v) => self.put_varint(f.tag, *v),
            WireValueOf::Fixed64(v) => self.put_fixed64(f.tag, *v),
            WireValueOf::Bytes(b) => self.put_bytes(f.tag, b),
            WireValueOf::Group => {},
            WireValueOf::Fixed32(v) => self.put_fixed32(f.tag, *v),
        }
    }

    /// Writes the field of a byte string.
    pub(crate) fn put_bytes(&mut self, tag: u32, b: &[u8])
        requires
            old(self).wf(),
            tag <= MAX_TAG,
        ensures
            final(self).wf(),
            final(self).fields() == old(self).fields().push(bytes_field(tag, b@)),
    {
        let ghost before = self.bytes@;
        self.key(tag, 2);
        prost_encode_varint(b.len() as u64, &mut self.bytes);
        self.bytes.extend_from_slice(b);
        assert(self.bytes@ =~= before + wire::field_bytes(bytes_field(tag, b@)));
        self.pushed(Ghost(before), Ghost(bytes_field(tag, b@)));
    }

    /// Records that the bytes behind `before` are those of `f`.
    fn pushed(&mut self, Ghost(before): Ghost<Seq<u8>>, Ghost(f): Ghost<FieldView>)
        requires
            before == wire::fields_bytes(old(self).fields@),
            old(self).bytes@ == before + wire::field_bytes(f),
        ensures
            final(self).wf(),
            final(self).fields() == old(self).fields().push(f),
    {
        proof {
            assert(self.fields@ + seq![f] =~= self.fields@.push(f));
            wire::lemma_fields_bytes_concat(self.fields@, seq![f]);
            wire::lemma_fields_bytes_one(f);
        }
        self.fields = Ghost(self.fields@.push(f));
    }

    /// Writes the field of an integer unless it is zero.
    pub(crate) fn varint(&mut self, tag: u32, v: u64)
        requires
            old(self).wf(),
            tag <= MAX_TAG,
        ensures
            final(self).wf(),
            final(self).fields() == with_varint(old(self).fields(), tag, v),
    {
        reveal(with_varint);
        if v != 0 {
            self.put_varint(tag, v);
        }
    }

    /// Writes the field of a truth value unless it is false.
    pub(crate) fn boolean(&mut self, tag: u32, b: bool)
        requires
            old(self).wf(),
            tag <= MAX_TAG,
        ensures
            final(self).wf(),
            final(self).fields() == with_bool(old(self).fields(), tag, b),
    {
        reveal(with_bool);
        if b {
            self.put_varint(tag, 1);
        }
    }

    /// Writes the field of a fixed-width integer unless it is zero.
    pub(crate) fn fixed32(&mut self, tag: u32, v: u32)
        requires
            old(self).wf(),
            tag <= MAX_TAG,
        ensures
            final(self).wf(),
            final(self).fields() == with_fixed32(old(self).fields(), tag, v),
    {
        reveal(with_fixed32);
        if v != 0 {
            self.put_fixed32(tag, v);
        }
    }

    /// Writes the field of a float unless it equals zero.
    pub(crate) fn float(&mut self, tag: u32, bits: u32)
        requires
            old(self).wf(),
            tag <= MAX_TAG,
        ensures
            final(self).wf(),
            final(self).fields() == with_float(old(self).fields(), tag, bits),
    {
        reveal(with_float);
        if bits != 0 && bits != 0x8000_0000 {
            self.put_fixed32(tag, bits);
        }
    }

    /// Writes the field of a byte string unless it is empty.
    pub(crate) fn bytes(&mut self, tag: u32, b: &[u8])
        requires
            old(self).wf(),
            tag <= MAX_TAG,
        ensures
            final(self).wf(),
            final(self).fields() == with_bytes(old(self).fields(), tag, b@),
    {
        reveal(with_bytes);
        if b.len() != 0 {
            self.put_bytes(tag, b);
        }
    }

    /// Writes the field of an integer that may be absent.
    pub(crate) fn opt_varint(&mut self, tag: u32, v: Option<u32>)
        requires
            old(self).wf(),
            tag <= MAX_TAG,
        ensures
            final(self).wf(),
            final(self).fields() == with_opt_varint(old(self).fields(), tag, v),
    {
        reveal(with_opt_varint);
        if let Some(v) = v {
            self.put_varint(tag, v as u64);
        }
    }

    /// Writes the field of a truth value that may be absent.
    pub(crate) fn opt_bool(&mut self, tag: u32, v: Option<bool>)
        requires
            old(self).wf(),
            tag <= MAX_TAG,
        ensures
            final(self).wf(),
            final(self).fields() == with_opt_bool(old(self).fields(), tag, v),
    {
        reveal(with_opt_bool);
        if let Some(v) = v {
            self.put_varint(tag, if v { 1 } else { 0 });
        }
    }

    /// Writes the field of an embedded message.
    pub(crate) fn put_message<M: Message>(&mut self, tag: u32, m: &M)
        requires
            old(self).wf(),
            tag <= MAX_TAG,
        ensures
            final(self).wf(),
            final(self).fields() == old(self).fields().push(bytes_field(tag, encoded::<M>(m@))),
    {
        let body = m.encode_to_vec();
        self.put_bytes(tag, &body);
    }
}

impl FieldWriter {
    /// Writes one field for each message of a list.
    pub(crate) fn put_messages<M: Message>(&mut self, tag: u32, ms: &Vec<M>)
        requires
            old(self).wf(),
            tag <= MAX_TAG,
        ensures
            final(self).wf(),
            final(self).fields() == old(self).fields() + message_fields::<M>(tag, views(ms@)),
    {
        let ghost fs = message_fields::<M>(tag, views(ms@));
        let mut i: usize = 0;
        assert(fs.take(0) =~= Seq::empty());
        assert(old(self).fields() + Seq::<FieldView>::empty() =~= old(self).fields());
        while i < ms.len()
            invariant
                i <= ms.len(),
                tag <= MAX_TAG,
                self.wf(),
                fs == message_fields::<M>(tag, views(ms@)),
                self.fields() == old(self).fields() + fs.take(i as int),
            decreases ms.len() - i,
        {
            self.put_message(tag, &ms[i]);
            assert(fs.take(i + 1) =~= fs.take(i as int).push(fs[i as int]));
            assert(old(self).fields() + fs.take(i as int).push(fs[i as int]) =~= (
            old(self).fields() + fs.take(i as int)).push(fs[i as int]));
            i += 1;
        }
        assert(fs.take(ms@.len() as int) =~= fs);
    }
}

// ---------------------------------------------------------------------------
// Reading back what was written
// ---------------------------------------------------------------------------

/// `fs` has been written for the part `m` of a message and reads back as `m`.
#[verifier::opaque]
pub open spec fn reads_as<M: Message>(fs: Seq<FieldView>, m: M::V) -> bool {
    &&& forall|i: int| 0 <= i < fs.len() ==> wire::plain(#[trigger] fs[i])
    &&& wire::fields_bytes(fs).len() <= u64::MAX ==> forall|room: nat| #[trigger]
        merged_all::<M>(M::blank(), fs, room) == Some(m)
}

pub(crate) proof fn lemma_reads_start<M: Message>()
    ensures
        reads_as::<M>(Seq::empty(), M::blank()),
{
    reveal(reads_as);
}

/// One more field: merging it leads from `m` to `n`.
pub(crate) proof fn lemma_reads_push<M: Message>(fs: Seq<FieldView>, m: M::V, f: FieldView, n: M::V)
    requires
        reads_as::<M>(fs, m),
        wire::plain(f),
        wire::small(f) ==> forall|room: nat| #[trigger] M::merged(m, f, room) == Some(n),
    ensures
        reads_as::<M>(fs.push(f), n),
{
    reveal(reads_as);
    wire::lemma_fields_bytes_push(fs, f);
    if wire::fields_bytes(fs.push(f)).len() <= u64::MAX {
        assert forall|room: nat| #[trigger]
            merged_all::<M>(M::blank(), fs.push(f), room) == Some(n) by {
            lemma_merged_push::<M>(M::blank(), fs, f, room);
            assert(merged_all::<M>(M::blank(), fs, room) == Some(m));
        }
    }
}

/// One more integer, left out if it is zero.
pub(crate) proof fn lemma_reads_varint<M: Message>(
    fs: Seq<FieldView>,
    m: M::V,
    tag: u32,
    v: u64,
    n: M::V,
)
    requires
        reads_as::<M>(fs, m),
        1 <= tag <= MAX_TAG,
        v != 0 ==> forall|room: nat| #[trigger]
            M::merged(m, varint_field(tag, v), room) == Some(n),
        !(v != 0) ==> n == m,
    ensures
        reads_as::<M>(with_varint(fs, tag, v), n),
{
    reveal(with_varint);
    if v != 0 {
        lemma_reads_push::<M>(fs, m, varint_field(tag, v), n);
    }
}

/// One more truth value, left out if it is false.
pub(crate) proof fn lemma_reads_bool<M: Message>(
    fs: Seq<FieldView>,
    m: M::V,
    tag: u32,
    b: bool,
    n: M::V,
)
    requires
        reads_as::<M>(fs, m),
        1 <= tag <= MAX_TAG,
        b ==> forall|room: nat| #[trigger]
            M::merged(m, varint_field(tag, 1), room) == Some(n),
        !(b) ==> n == m,
    ensures
        reads_as::<M>(with_bool(fs, tag, b), n),
{
    reveal(with_bool);
    if b {
        lemma_reads_push::<M>(fs, m, varint_field(tag, 1), n);
    }
}

/// One more fixed-width integer, left out if it is zero.
pub(crate) proof fn lemma_reads_fixed32<M: Message>(
    fs: Seq<FieldView>,
    m: M::V,
    tag: u32,
    v: u32,
    n: M::V,
)
    requires
        reads_as::<M>(fs, m),
        1 <= tag <= MAX_TAG,
        v != 0 ==> forall|room: nat| #[trigger]
            M::merged(m, fixed32_field(tag, v), room) == Some(n),
        !(v != 0) ==> n == m,
    ensures
        reads_as::<M>(with_fixed32(fs, tag, v), n),
{
    reveal(with_fixed32);
    if v != 0 {
        lemma_reads_push::<M>(fs, m, fixed32_field(tag, v), n);
    }
}

/// One more float, left out if it equals zero.
pub(crate) proof fn lemma_reads_float<M: Message>(
    fs: Seq<FieldView>,
    m: M::V,
    tag: u32,
    bits: u32,
    n: M::V,
)
    requires
        reads_as::<M>(fs, m),
        1 <= tag <= MAX_TAG,
        !is_float_zero(bits) ==> forall|room: nat| #[trigger]
            M::merged(m, fixed32_field(tag, bits), room) == Some(n),
        !(!is_float_zero(bits)) ==> n == m,
    ensures
        reads_as::<M>(with_float(fs, tag, bits), n),
{
    reveal(with_float);
    if !is_float_zero(bits) {
        lemma_reads_push::<M>(fs, m, fixed32_field(tag, bits), n);
    }
}

/// One more byte string, left out if it is empty.
pub(crate) proof fn lemma_reads_bytes<M: Message>(
    fs: Seq<FieldView>,
    m: M::V,
    tag: u32,
    b: Seq<u8>,
    n: M::V,
)
    requires
        reads_as::<M>(fs, m),
        1 <= tag <= MAX_TAG,
        0 < b.len() <= u64::MAX ==> forall|room: nat| #[trigger]
            M::merged(m, bytes_field(tag, b), room) == Some(n),
        !(b.len() != 0) ==> n == m,
    ensures
        reads_as::<M>(with_bytes(fs, tag, b), n),
{
    reveal(with_bytes);
    if b.len() != 0 {
        lemma_reads_push::<M>(fs, m, bytes_field(tag, b), n);
    }
}

/// One more integer, left out if it is absent.
pub(crate) proof fn lemma_reads_opt_varint<M: Message>(
    fs: Seq<FieldView>,
    m: M::V,
    tag: u32,
    v: Option<u32>,
    n: M::V,
)
    requires
        reads_as::<M>(fs, m),
        1 <= tag <= MAX_TAG,
        v is Some ==> forall|room: nat| #[trigger]
            M::merged(m, varint_field(tag, v->0 as u64), room) == Some(n),
        !(v is Some) ==> n == m,
    ensures
        reads_as::<M>(with_opt_varint(fs, tag, v), n),
{
    reveal(with_opt_varint);
    if v is Some {
        lemma_reads_push::<M>(fs, m, varint_field(tag, v->0 as u64), n);
    }
}

/// One more truth value, left out if it is absent.
pub(crate) proof fn lemma_reads_opt_bool<M: Message>(
    fs: Seq<FieldView>,
    m: M::V,
    tag: u32,
    v: Option<bool>,
    n: M::V,
)
    requires
        reads_as::<M>(fs, m),
        1 <= tag <= MAX_TAG,
        v is Some ==> forall|room: nat| #[trigger]
            M::merged(m, varint_field(tag, bool_number(v->0)), room) == Some(n),
        !(v is Some) ==> n == m,
    ensures
        reads_as::<M>(with_opt_bool(fs, tag, v), n),
{
    reveal(with_opt_bool);
    if v is Some {
        lemma_reads_push::<M>(fs, m, varint_field(tag, bool_number(v->0)), n);
    }
}

/// One more byte string, left out if it is absent.
pub(crate) proof fn lemma_reads_opt_bytes<M: Message>(
    fs: Seq<FieldView>,
    m: M::V,
    tag: u32,
    b: Option<Seq<u8>>,
    n: M::V,
)
    requires
        reads_as::<M>(fs, m),
        1 <= tag <= MAX_TAG,
        b is Some && b->0.len() <= u64::MAX ==> forall|room: nat| #[trigger]
            M::merged(m, bytes_field(tag, b->0), room) == Some(n),
        !(b is Some) ==> n == m,
    ensures
        reads_as::<M>(with_opt_bytes(fs, tag, b), n),
{
    reveal(with_opt_bytes);
    if b is Some {
        lemma_reads_push::<M>(fs, m, bytes_field(tag, b->0), n);
    }
}

/// One more embedded message, left out if it is absent.
pub(crate) proof fn lemma_reads_message<M: Message, N: Message>(
    fs: Seq<FieldView>,
    m: M::V,
    tag: u32,
    x: Option<N::V>,
    n: M::V,
)
    requires
        reads_as::<M>(fs, m),
        1 <= tag <= MAX_TAG,
        x is Some && encoded::<N>(x->0).len() <= u64::MAX ==> forall|room: nat| #[trigger]
            M::merged(m, bytes_field(tag, encoded::<N>(x->0)), room) == Some(n),
        !(x is Some) ==> n == m,
    ensures
        reads_as::<M>(with_message::<N>(fs, tag, x), n),
{
    reveal(with_message);
    if x is Some {
        lemma_reads_push::<M>(fs, m, bytes_field(tag, encoded::<N>(x->0)), n);
    }
}

/// More fields: merging them leads through the states `ms`.
pub(crate) proof fn lemma_reads_all<M: Message>(
    fs: Seq<FieldView>,
    gs: Seq<FieldView>,
    ms: Seq<M::V>,
)
    requires
        ms.len() == gs.len() + 1,
        reads_as::<M>(fs, ms[0]),
        forall|i: int|
            0 <= i < gs.len() ==> wire::plain(#[trigger] gs[i]) && (wire::small(gs[i])
                ==> forall|room: nat| #[trigger]
                    M::merged(ms[i], gs[i], room) == Some(ms[i + 1])),
    ensures
        reads_as::<M>(fs + gs, ms.last()),
    decreases gs.len(),
{
    if gs.len() == 0 {
        assert(fs + gs =~= fs);
    } else {
        let hs = gs.drop_last();
        let k = hs.len() as int;
        assert(forall|i: int| 0 <= i < k ==> #[trigger] hs[i] == gs[i]);
        lemma_reads_all::<M>(fs, hs, ms.drop_last());
        assert(ms.drop_last().last() == ms[k]);
        assert(gs[k] == gs.last());
        lemma_reads_push::<M>(fs + hs, ms[k], gs[k], ms[k + 1]);
        assert((fs + hs).push(gs[k]) =~= fs + gs);
    }
}

/// One more field, left out if it is absent.
pub(crate) proof fn lemma_reads_opt_field<M: Message>(
    fs: Seq<FieldView>,
    m: M::V,
    f: Option<FieldView>,
    n: M::V,
)
    requires
        reads_as::<M>(fs, m),
        f matches Some(x) ==> wire::plain(x) && (wire::small(x) ==> forall|room: nat| #[trigger]
            M::merged(m, x, room) == Some(n)),
        f is None ==> n == m,
    ensures
        reads_as::<M>(with_opt_field(fs, f), n),
{
    reveal(with_opt_field);
    if f is Some {
        lemma_reads_push::<M>(fs, m, f->0, n);
    }
}

// ---------------------------------------------------------------------------
// Minus zero
// ---------------------------------------------------------------------------

/// An embedded message reads back.
pub(crate) proof fn lemma_embedded<M: RoundTrip>(x: Option<M::V>)
    requires
        opt_canonical::<M>(x),
    ensures
        x is Some && encoded::<M>(x->0).len() <= u64::MAX ==> forall|room: nat| #[trigger]
            merged_bytes::<M>(M::blank(), encoded::<M>(x->0), room) == x,
{
    if x is Some && encoded::<M>(x->0).len() <= u64::MAX {
        assert forall|room: nat| #[trigger]
            merged_bytes::<M>(M::blank(), encoded::<M>(x->0), room) == x by {
            lemma_decode_at::<M>(x->0, room);
        }
    }
}

/// Minus zero is written like zero.
pub(crate) proof fn lemma_settled_float(fs: Seq<FieldView>, tag: u32, bits: u32)
    ensures
        with_float(fs, tag, settled_float(bits)) == with_float(fs, tag, bits),
{
    reveal(with_float);
}

/// An embedded message is written like the one that it reads back as.
pub(crate) proof fn lemma_settled_message<M: RoundTrip>(
    fs: Seq<FieldView>,
    tag: u32,
    x: Option<M::V>,
)
    ensures
        with_message::<M>(fs, tag, opt_settled::<M>(x)) == with_message::<M>(fs, tag, x),
{
    reveal(with_message);
    if let Some(m) = x {
        M::lemma_settled(m);
    }
}

/// Repeated messages are written like those that they read back as.
pub(crate) proof fn lemma_settled_messages<M: RoundTrip>(tag: u32, ms: Seq<M::V>)
    ensures
        message_fields::<M>(tag, all_settled::<M>(ms)) == message_fields::<M>(tag, ms),
{
    let settled = all_settled::<M>(ms);
    assert forall|i: int| 0 <= i < ms.len() implies #[trigger] message_fields::<M>(tag, settled)[i]
        == message_fields::<M>(tag, ms)[i] by {
        M::lemma_settled(ms[i]);
    }
    assert(message_fields::<M>(tag, settled) =~= message_fields::<M>(tag, ms));
}

/// Merging into an embedded message keeps it such that it reads back.
pub(crate) proof fn lemma_merged_message<M: RoundTrip>(x: Option<M::V>, b: Seq<u8>, room: nat)
    requires
        opt_canonical::<M>(opt_settled::<M>(x)),
        merged_bytes::<M>(or_blank::<M>(x), b, room) is Some,
    ensures
        M::canonical(M::settled(merged_bytes::<M>(or_blank::<M>(x), b, room)->0)),
{
    M::lemma_blank();
    lemma_merged_bytes::<M>(or_blank::<M>(x), b, room);
}

} // verus!
