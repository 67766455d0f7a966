//! Messages that are held in their wire form.
//!
//! A message of which the library reads no field is held as the bytes that it is
//! written as. There are many byte strings for one message: fields come in any
//! order and more than once, and a number has longer and shorter forms.
//! [`arranged`] says which fields a message is written as, and [`held`] which
//! bytes.

use crate::message::{self, inner_room, FieldWriter};
use crate::shape::{self, is_list, kind, kind_of, place, place_of, rank, Kind, Scalar, Shape};
use crate::text;
use crate::wire::{
    self, decode_fields_within, le32_bytes, prost_decode_varint, prost_encode_varint, Field,
    FieldOf, FieldView, WireValueOf, MAX_TAG,
};
use vstd::prelude::*;

verus! {

// ---------------------------------------------------------------------------
// Values
// ---------------------------------------------------------------------------

/// Whether values of a kind are varints.
pub open spec fn is_number(s: Scalar) -> bool {
    s is Bool || s is Int32 || s is Uint32 || s is Uint64
}

/// The number that a value of a kind is written as.
pub open spec fn narrowed(s: Scalar, v: u64) -> u64 {
    match s {
        Scalar::Bool => message::bool_number(v != 0),
        Scalar::Int32 => message::int32_bits(message::as_int32(v)),
        Scalar::Uint32 => message::as_uint32(v) as u64,
        _ => v,
    }
}

/// What a value of a kind is written as, `None` where it is not of the kind.
pub open spec fn settled_value(s: Scalar, value: WireValueOf<Seq<u8>>) -> Option<
    WireValueOf<Seq<u8>>,
> {
    match (s, value) {
        (Scalar::Fixed32, WireValueOf::Fixed32(_)) => Some(value),
        (Scalar::Float, WireValueOf::Fixed32(_)) => Some(value),
        (Scalar::Bytes, WireValueOf::Bytes(_)) => Some(value),
        (Scalar::Text, WireValueOf::Bytes(b)) => if text::utf8_decoded(b) is Some {
            Some(value)
        } else {
            None
        },
        (_, WireValueOf::Varint(v)) => if is_number(s) {
            Some(WireValueOf::Varint(narrowed(s, v)))
        } else {
            None
        },
        _ => None,
    }
}

/// Whether a value is zero or empty; a float is zero with either sign.
pub open spec fn is_default(s: Scalar, value: WireValueOf<Seq<u8>>) -> bool {
    match value {
        WireValueOf::Varint(v) => v == 0,
        WireValueOf::Fixed32(v) => v == 0 || (s is Float && message::is_float_zero(v)),
        WireValueOf::Bytes(b) => b.len() == 0,
        _ => false,
    }
}

/// What a run of varints is written as, `None` where `b` is no such run.
pub open spec fn renumbered(s: Scalar, b: Seq<u8>) -> Option<Seq<u8>>
    decreases b.len(),
{
    if b.len() == 0 {
        Some(Seq::empty())
    } else {
        match wire::read_varint(b) {
            Some((v, n)) => if 1 <= n <= b.len() {
                match renumbered(s, b.skip(n as int)) {
                    Some(y) => Some(wire::varint(narrowed(s, v as u64) as nat) + y),
                    None => None,
                }
            } else {
                None
            },
            None => None,
        }
    }
}

/// What a field of a list that is written in one field adds to it.
pub open spec fn packed(s: Scalar, value: WireValueOf<Seq<u8>>) -> Option<Seq<u8>> {
    match value {
        WireValueOf::Fixed32(v) => if s is Fixed32 {
            Some(wire::le32(v))
        } else {
            None
        },
        WireValueOf::Varint(v) => if is_number(s) {
            Some(wire::varint(narrowed(s, v) as nat))
        } else {
            None
        },
        WireValueOf::Bytes(b) => if is_number(s) {
            renumbered(s, b)
        } else if s is Fixed32 && b.len() % 4 == 0 {
            Some(b)
        } else {
            None
        },
        _ => None,
    }
}

proof fn lemma_narrowed(s: Scalar, v: u64)
    ensures
        narrowed(s, narrowed(s, v)) == narrowed(s, v),
{
    message::lemma_int32(message::as_int32(v));
}

/// A number in front of a run.
proof fn lemma_renumbered_next(s: Scalar, v: u64, b: Seq<u8>)
    requires
        narrowed(s, v) == v,
    ensures
        renumbered(s, wire::varint(v as nat) + b) == match renumbered(s, b) {
            Some(y) => Some(wire::varint(v as nat) + y),
            None => None,
        },
{
    let a = wire::varint(v as nat);
    wire::lemma_read_varint(v as nat, b);
    assert((a + b).skip(a.len() as int) =~= b);
}

/// What a run is written as is written as itself.
proof fn lemma_renumbered(s: Scalar, b: Seq<u8>)
    ensures
        renumbered(s, b) matches Some(y) ==> renumbered(s, y) == Some(y),
    decreases b.len(),
{
    if b.len() > 0 {
        if let Some((v, n)) = wire::read_varint(b) {
            if 1 <= n <= b.len() {
                lemma_renumbered(s, b.skip(n as int));
                if let Some(y) = renumbered(s, b.skip(n as int)) {
                    lemma_narrowed(s, v as u64);
                    lemma_renumbered_next(s, narrowed(s, v as u64), y);
                }
            }
        }
    }
}

/// Two runs are written one behind the other.
proof fn lemma_renumbered_concat(s: Scalar, a: Seq<u8>, b: Seq<u8>)
    requires
        renumbered(s, a) == Some(a),
        renumbered(s, b) == Some(b),
    ensures
        renumbered(s, a + b) == Some(a + b),
    decreases a.len(),
{
    if a.len() == 0 {
        assert(a + b =~= b);
    } else {
        let (v, n) = wire::read_varint(a)->0;
        let y = renumbered(s, a.skip(n as int))->0;
        let w = narrowed(s, v as u64);
        let x = wire::varint(w as nat);
        lemma_narrowed(s, v as u64);
        wire::lemma_read_varint(w as nat, y);
        assert(a == x + y);
        assert(a.skip(n as int) =~= y);
        lemma_renumbered_concat(s, y, b);
        lemma_renumbered_next(s, w, y + b);
        assert(x + (y + b) =~= a + b);
    }
}

/// What is added to a list is written as itself, and so is the list with it.
proof fn lemma_packed(s: Scalar, old: Seq<u8>, value: WireValueOf<Seq<u8>>)
    requires
        packed(s, WireValueOf::Bytes(old)) == Some(old),
    ensures
        packed(s, value) matches Some(y) ==> packed(s, WireValueOf::Bytes(old + y)) == Some(
            old + y,
        ),
{
    if let Some(y) = packed(s, value) {
        match value {
            WireValueOf::Varint(v) => {
                lemma_narrowed(s, v);
                lemma_renumbered_next(s, narrowed(s, v), Seq::empty());
                assert(y + Seq::<u8>::empty() =~= y);
                lemma_renumbered_concat(s, old, y);
            },
            WireValueOf::Bytes(b) => {
                if is_number(s) {
                    lemma_renumbered(s, b);
                    lemma_renumbered_concat(s, old, y);
                }
            },
            _ => {},
        }
    }
}

// ---------------------------------------------------------------------------
// Fields
// ---------------------------------------------------------------------------

/// A field, if its length can be written.
pub open spec fn sized(g: FieldView) -> Option<Option<FieldView>> {
    if wire::small(g) {
        Some(Some(g))
    } else {
        None
    }
}

/// What the place of a field holds once the field is read: nothing, or a field.
/// `old` is what a list that is written in one field, or a message, held before.
/// `None` where the value is not of the kind of the field.
pub open spec fn entry(shape: Shape, old: Seq<u8>, f: FieldView, room: nat) -> Option<
    Option<FieldView>,
>
    decreases rank(shape), 0nat, 0nat,
{
    match kind(shape, f.tag) {
        None => Some(None),
        Some(Kind::Plain(s)) => match settled_value(s, f.value) {
            Some(value) => if is_default(s, value) {
                Some(None)
            } else {
                sized(FieldOf { tag: f.tag, value })
            },
            None => None,
        },
        Some(Kind::Optional(s)) => match settled_value(s, f.value) {
            Some(value) => sized(FieldOf { tag: f.tag, value }),
            None => None,
        },
        Some(Kind::List(s)) => match settled_value(s, f.value) {
            Some(value) => sized(FieldOf { tag: f.tag, value }),
            None => None,
        },
        Some(Kind::Packed(s)) => match packed(s, f.value) {
            Some(y) => if (old + y).len() == 0 {
                Some(None)
            } else {
                sized(message::bytes_field(f.tag, old + y))
            },
            None => None,
        },
        Some(Kind::Message(inner)) => {
            proof {
                shape::lemma_rank(shape, f.tag);
            }
            match f.value {
                WireValueOf::Bytes(b) => match joined(inner, old, b, message::inner(room)) {
                    Some(y) => Some(Some(message::bytes_field(f.tag, y))),
                    None => None,
                },
                _ => None,
            }
        },
        Some(Kind::Messages(inner)) => {
            proof {
                shape::lemma_rank(shape, f.tag);
            }
            match f.value {
                WireValueOf::Bytes(b) => match joined(
                    inner,
                    Seq::empty(),
                    b,
                    message::inner(room),
                ) {
                    Some(y) => Some(Some(message::bytes_field(f.tag, y))),
                    None => None,
                },
                _ => None,
            }
        },
    }
}

/// The first position from `k` on of a field whose place is `bound` or behind it.
pub open spec fn first_from(shape: Shape, gs: Seq<FieldView>, bound: nat, k: nat) -> nat
    decreases gs.len() - k,
{
    if k >= gs.len() {
        gs.len()
    } else if place(shape, gs[k as int].tag) >= bound {
        k
    } else {
        first_from(shape, gs, bound, k + 1)
    }
}

/// The position of the first field in a place, or where it would be.
pub open spec fn start_of(shape: Shape, gs: Seq<FieldView>, tag: u32) -> nat {
    first_from(shape, gs, place(shape, tag) as nat, 0)
}

/// The position behind the last field in a place.
pub open spec fn end_of(shape: Shape, gs: Seq<FieldView>, tag: u32) -> nat {
    first_from(shape, gs, place(shape, tag) as nat + 1, 0)
}

/// The bytes of the field at position `i`, if it has the number `tag`.
pub open spec fn bytes_at(gs: Seq<FieldView>, i: int, tag: u32) -> Seq<u8> {
    if 0 <= i < gs.len() && gs[i].tag == tag {
        match gs[i].value {
            WireValueOf::Bytes(b) => b,
            _ => Seq::empty(),
        }
    } else {
        Seq::empty()
    }
}

/// The fields of which an entry is made.
pub open spec fn entry_fields(e: Option<FieldView>) -> Seq<FieldView> {
    match e {
        Some(g) => seq![g],
        None => Seq::empty(),
    }
}

/// Fields in order with an entry in the place of the field `tag`, or at the end of
/// it where the field is one of a list.
pub open spec fn spliced(
    shape: Shape,
    gs: Seq<FieldView>,
    tag: u32,
    e: Option<FieldView>,
) -> Seq<FieldView> {
    let start = start_of(shape, gs, tag) as int;
    let end = end_of(shape, gs, tag) as int;
    let kept = if kind(shape, tag) matches Some(k) && is_list(k) {
        end
    } else {
        start
    };
    gs.take(kept) + entry_fields(e) + gs.skip(end)
}

/// What fields in order become once one more field is read, `None` where its value
/// is not of its kind.
pub open spec fn placed(shape: Shape, gs: Seq<FieldView>, f: FieldView, room: nat) -> Option<
    Seq<FieldView>,
>
    decreases rank(shape), 1nat, 0nat,
{
    if kind(shape, f.tag) is None {
        Some(gs)
    } else {
        match entry(
            shape,
            bytes_at(gs, start_of(shape, gs, f.tag) as int, f.tag),
            f,
            room,
        ) {
            Some(e) => Some(spliced(shape, gs, f.tag, e)),
            None => None,
        }
    }
}

/// The fields that a message is written as, of the fields that were read.
pub open spec fn arranged(shape: Shape, fs: Seq<FieldView>, room: nat) -> Option<Seq<FieldView>>
    decreases rank(shape), 2nat, fs.len(),
{
    if fs.len() == 0 {
        Some(Seq::empty())
    } else {
        match arranged(shape, fs.drop_last(), room) {
            Some(gs) => placed(shape, gs, fs.last(), room),
            None => None,
        }
    }
}

/// What a message is written as of which first `old` and then `b` was read,
/// `None` where either holds no such message. Groups may be nested `room` levels
/// deep. It is no longer than a length can say.
pub open spec fn joined(shape: Shape, old: Seq<u8>, b: Seq<u8>, room: nat) -> Option<Seq<u8>>
    decreases rank(shape), 3nat, 0nat,
{
    match (wire::parse_fields(old, room), wire::parse_fields(b, room)) {
        (Some(os), Some(fs)) => match arranged(shape, os + fs, room) {
            Some(gs) => if wire::fields_bytes(gs).len() <= u64::MAX {
                Some(wire::fields_bytes(gs))
            } else {
                None
            },
            None => None,
        },
        _ => None,
    }
}

/// As [`joined`], for the fields of other messages.
#[verifier::opaque]
pub open spec fn held(shape: Shape, old: Seq<u8>, b: Seq<u8>, room: nat) -> Option<Seq<u8>> {
    joined(shape, old, b, room)
}

/// Whether a byte string is what a message of a shape is written as.
pub open spec fn is_held(shape: Shape, b: Seq<u8>) -> bool {
    forall|room: nat| #[trigger] held(shape, Seq::empty(), b, room) == Some(b)
}

// ---------------------------------------------------------------------------
// What is written reads back
// ---------------------------------------------------------------------------

/// Whether a field is written as itself.
pub open spec fn is_settled(shape: Shape, g: FieldView) -> bool {
    &&& wire::encodable(g)
    &&& kind(shape, g.tag) is Some
    &&& forall|room: nat| #[trigger] entry(shape, Seq::empty(), g, room) == Some(Some(g))
}

/// Whether two fields may be written one behind the other.
pub open spec fn in_order(shape: Shape, g: FieldView, h: FieldView) -> bool {
    ||| place(shape, g.tag) < place(shape, h.tag)
    ||| g.tag == h.tag && (kind(shape, g.tag) matches Some(k) && is_list(k))
}

/// Whether fields are those that some message is written as.
pub open spec fn is_arranged(shape: Shape, gs: Seq<FieldView>) -> bool {
    &&& forall|i: int| 0 <= i < gs.len() ==> is_settled(shape, #[trigger] gs[i])
    &&& forall|i: int, j: int|
        0 <= i < j < gs.len() ==> in_order(shape, #[trigger] gs[i], #[trigger] gs[j])
}

proof fn lemma_first_from(shape: Shape, gs: Seq<FieldView>, bound: nat, k: nat)
    requires
        k <= gs.len(),
    ensures
        k <= first_from(shape, gs, bound, k) <= gs.len(),
        forall|i: int|
            k <= i < first_from(shape, gs, bound, k) ==> place(
                shape,
                (#[trigger] gs[i]).tag,
            ) < bound,
        first_from(shape, gs, bound, k) < gs.len() ==> place(
            shape,
            gs[first_from(shape, gs, bound, k) as int].tag,
        ) >= bound,
    decreases gs.len() - k,
{
    if k < gs.len() && place(shape, gs[k as int].tag) < bound {
        lemma_first_from(shape, gs, bound, k + 1);
    }
}

/// Where the fields of a place stand among fields in order.
proof fn lemma_places(shape: Shape, gs: Seq<FieldView>, tag: u32)
    ensures
        start_of(shape, gs, tag) <= end_of(shape, gs, tag) <= gs.len(),
        is_arranged(shape, gs) ==> {
            let start = start_of(shape, gs, tag);
            let end = end_of(shape, gs, tag);
            &&& forall|i: int|
                0 <= i < start ==> place(shape, (#[trigger] gs[i]).tag) < place(shape, tag)
            &&& forall|i: int|
                start <= i < end ==> place(shape, (#[trigger] gs[i]).tag) == place(shape, tag)
            &&& forall|i: int|
                end <= i < gs.len() ==> place(shape, (#[trigger] gs[i]).tag) > place(shape, tag)
        },
{
    let p = place(shape, tag) as nat;
    let start = start_of(shape, gs, tag);
    let end = end_of(shape, gs, tag);
    lemma_first_from(shape, gs, p, 0);
    lemma_first_from(shape, gs, p + 1, 0);
    if end < start {
        assert(place(shape, gs[end as int].tag) < p);
    }
    if is_arranged(shape, gs) {
        assert forall|i: int| start <= i < gs.len() implies place(shape, (#[trigger] gs[i]).tag)
            >= p by {
            if i > start {
                assert(in_order(shape, gs[start as int], gs[i]));
            }
        }
        assert forall|i: int| end <= i < gs.len() implies place(shape, (#[trigger] gs[i]).tag)
            > p by {
            if i > end {
                assert(in_order(shape, gs[end as int], gs[i]));
            }
        }
    }
}

/// What a field is written as is written as itself.
proof fn lemma_entry(shape: Shape, old: Seq<u8>, f: FieldView, room: nat)
    requires
        1 <= f.tag <= MAX_TAG,
        kind(shape, f.tag) matches Some(Kind::Packed(s)) ==> packed(s, f.value) is Some ==> packed(
            s,
            WireValueOf::Bytes(old),
        ) == Some(old),
    ensures
        entry(shape, old, f, room) matches Some(Some(g)) ==> g.tag == f.tag && is_settled(shape, g),
    decreases rank(shape), 0nat, 0nat,
{
    if let Some(Some(g)) = entry(shape, old, f, room) {
        assert forall|other: nat| #[trigger] entry(shape, Seq::empty(), g, other) == Some(
            Some(g),
        ) by {
            match kind(shape, f.tag)->0 {
                Kind::Plain(s) | Kind::Optional(s) | Kind::List(s) => {
                    if let WireValueOf::Varint(v) = f.value {
                        lemma_narrowed(s, v);
                    }
                },
                Kind::Packed(s) => {
                    lemma_packed(s, old, f.value);
                    let y = packed(s, f.value)->0;
                    assert(Seq::<u8>::empty() + (old + y) =~= old + y);
                },
                Kind::Message(inner) => {
                    shape::lemma_rank(shape, f.tag);
                    let b = f.value->Bytes_0;
                    lemma_joined(inner, old, b, message::inner(room));
                    let y = joined(inner, old, b, message::inner(room))->0;
                    assert(g == message::bytes_field(f.tag, y));
                    assert(joined(inner, Seq::empty(), y, message::inner(other)) == Some(y));
                },
                Kind::Messages(inner) => {
                    shape::lemma_rank(shape, f.tag);
                    let b = f.value->Bytes_0;
                    lemma_joined(inner, Seq::empty(), b, message::inner(room));
                    let y = joined(inner, Seq::empty(), b, message::inner(room))->0;
                    assert(g == message::bytes_field(f.tag, y));
                    assert(joined(inner, Seq::empty(), y, message::inner(other)) == Some(y));
                },
            }
        }
        match kind(shape, f.tag)->0 {
            Kind::Message(inner) => {
                shape::lemma_rank(shape, f.tag);
                lemma_joined(inner, old, f.value->Bytes_0, message::inner(room));
            },
            Kind::Messages(inner) => {
                shape::lemma_rank(shape, f.tag);
                lemma_joined(inner, Seq::empty(), f.value->Bytes_0, message::inner(room));
            },
            _ => {},
        }
    }
}

/// An entry in its place keeps fields in order.
proof fn lemma_spliced(shape: Shape, gs: Seq<FieldView>, tag: u32, e: Option<FieldView>)
    requires
        is_arranged(shape, gs),
        kind(shape, tag) is Some,
        e matches Some(g) ==> g.tag == tag && is_settled(shape, g),
    ensures
        is_arranged(shape, spliced(shape, gs, tag, e)),
        forall|i: int|
            #![trigger spliced(shape, gs, tag, e)[i]]
            0 <= i < spliced(shape, gs, tag, e).len() ==> spliced(shape, gs, tag, e)[i].tag == tag
                || gs.contains(spliced(shape, gs, tag, e)[i]),
{
    let hs = spliced(shape, gs, tag, e);
    let start = start_of(shape, gs, tag) as int;
    let end = end_of(shape, gs, tag) as int;
    let p = if is_list(kind(shape, tag)->0) {
        end
    } else {
        start
    };
    let n = entry_fields(e).len() as int;
    lemma_places(shape, gs, tag);
    assert(forall|i: int| 0 <= i < p ==> #[trigger] hs[i] == gs[i]);
    assert(forall|i: int| p <= i < p + n ==> #[trigger] hs[i] == e->0);
    assert(forall|i: int| p + n <= i < hs.len() ==> #[trigger] hs[i] == gs[i - p - n + end]);
    assert forall|i: int| 0 <= i < hs.len() implies is_settled(shape, #[trigger] hs[i]) && (
    hs[i].tag == tag || gs.contains(hs[i])) by {
        if i < p {
            assert(gs.contains(gs[i]));
        } else if i >= p + n {
            assert(gs.contains(gs[i - p - n + end]));
        }
    }
    assert forall|i: int, j: int| 0 <= i < j < hs.len() implies in_order(
        shape,
        #[trigger] hs[i],
        #[trigger] hs[j],
    ) by {
        if j < p {
            assert(in_order(shape, gs[i], gs[j]));
        } else if j < p + n {
            assert(place(shape, gs[i].tag) <= place(shape, tag));
            if i >= start {
                shape::lemma_place(shape, tag, gs[i].tag);
            }
        } else if i < p {
            assert(in_order(shape, gs[i], gs[j - p - n + end]));
        } else if i < p + n {
            assert(place(shape, tag) < place(shape, gs[j - p - n + end].tag));
        } else {
            assert(in_order(shape, gs[i - p - n + end], gs[j - p - n + end]));
        }
    }
}

/// Reading a field keeps fields in order.
pub proof fn lemma_placed(shape: Shape, gs: Seq<FieldView>, f: FieldView, room: nat)
    requires
        is_arranged(shape, gs),
        1 <= f.tag <= MAX_TAG,
    ensures
        placed(shape, gs, f, room) matches Some(hs) ==> is_arranged(shape, hs) && forall|i: int|
            0 <= i < hs.len() ==> (#[trigger] hs[i]).tag == f.tag || gs.contains(hs[i]),
    decreases rank(shape), 1nat, 0nat,
{
    if kind(shape, f.tag) is Some {
        let start = start_of(shape, gs, f.tag) as int;
        let old = bytes_at(gs, start, f.tag);
        if let Some(Kind::Packed(s)) = kind(shape, f.tag) {
            if 0 <= start < gs.len() && gs[start].tag == f.tag {
                assert(is_settled(shape, gs[start]));
                assert(entry(shape, Seq::empty(), gs[start], 0) == Some(Some(gs[start])));
                let y = packed(s, gs[start].value)->0;
                assert(Seq::<u8>::empty() + y =~= y);
            }
        }
        lemma_entry(shape, old, f, room);
        if let Some(e) = entry(shape, old, f, room) {
            lemma_spliced(shape, gs, f.tag, e);
            assert(placed(shape, gs, f, room) == Some(spliced(shape, gs, f.tag, e)));
        }
    }
}

/// Reading fields puts them in order.
proof fn lemma_arranged(shape: Shape, fs: Seq<FieldView>, room: nat)
    requires
        forall|i: int| 0 <= i < fs.len() ==> 1 <= (#[trigger] fs[i]).tag <= MAX_TAG,
    ensures
        arranged(shape, fs, room) matches Some(gs) ==> is_arranged(shape, gs),
    decreases rank(shape), 2nat, fs.len(),
{
    if fs.len() > 0 {
        let before = fs.drop_last();
        assert(forall|i: int| 0 <= i < before.len() ==> #[trigger] before[i] == fs[i]);
        lemma_arranged(shape, before, room);
        assert(1 <= fs[fs.len() - 1].tag <= MAX_TAG);
        if let Some(gs) = arranged(shape, before, room) {
            lemma_placed(shape, gs, fs.last(), room);
        }
    }
}

/// A field of fields in order comes behind those before it.
pub proof fn lemma_placed_next(shape: Shape, gs: Seq<FieldView>, i: int, room: nat)
    requires
        is_arranged(shape, gs),
        0 <= i < gs.len(),
    ensures
        placed(shape, gs.take(i), gs[i], room) == Some(gs.take(i + 1)),
{
    let before = gs.take(i);
    let g = gs[i];
    let start = start_of(shape, before, g.tag) as int;
    let end = end_of(shape, before, g.tag) as int;
    assert(is_settled(shape, g));
    assert(is_arranged(shape, before)) by {
        assert(forall|j: int| 0 <= j < i ==> #[trigger] before[j] == gs[j]);
    }
    lemma_places(shape, before, g.tag);
    assert(end == i) by {
        if end < i {
            assert(before[end] == gs[end]);
            assert(in_order(shape, gs[end], g));
        }
    }
    let old = bytes_at(before, start, g.tag);
    assert(entry(shape, Seq::empty(), g, room) == Some(Some(g)));
    if is_list(kind(shape, g.tag)->0) {
        assert(entry(shape, old, g, room) == Some(Some(g)));
    } else {
        assert(start == i) by {
            if start < i {
                assert(before[start] == gs[start]);
                assert(in_order(shape, gs[start], g));
            }
        }
        assert(old =~= Seq::empty());
    }
    assert(before.take(i) + seq![g] + before.skip(i) =~= gs.take(i + 1));
}

/// Fields in order are written as they are.
proof fn lemma_arranged_again(shape: Shape, gs: Seq<FieldView>, n: int, room: nat)
    requires
        is_arranged(shape, gs),
        0 <= n <= gs.len(),
    ensures
        arranged(shape, gs.take(n), room) == Some(gs.take(n)),
    decreases n,
{
    if n == 0 {
        assert(gs.take(0) =~= Seq::empty());
    } else {
        lemma_arranged_again(shape, gs, n - 1, room);
        assert(gs.take(n).drop_last() =~= gs.take(n - 1));
        assert(gs.take(n).last() == gs[n - 1]);
        lemma_placed_next(shape, gs, n - 1, room);
    }
}

/// What a message is written as is written as itself.
proof fn lemma_joined(shape: Shape, old: Seq<u8>, b: Seq<u8>, room: nat)
    ensures
        joined(shape, old, b, room) matches Some(y) ==> y.len() <= u64::MAX && forall|other: nat|
            #[trigger] joined(shape, Seq::empty(), y, other) == Some(y),
    decreases rank(shape), 3nat, 0nat,
{
    wire::lemma_parsed_tags(old, room);
    wire::lemma_parsed_tags(b, room);
    if let Some(y) = joined(shape, old, b, room) {
        let fs = wire::parse_fields(old, room)->0 + wire::parse_fields(b, room)->0;
        lemma_arranged(shape, fs, room);
        let gs = arranged(shape, fs, room)->0;
        assert(wire::all_encodable(gs)) by {
            assert forall|i: int| 0 <= i < gs.len() implies wire::encodable(#[trigger] gs[i]) by {
                assert(is_settled(shape, gs[i]));
            }
        }
        assert forall|other: nat| #[trigger] joined(shape, Seq::empty(), y, other) == Some(y) by {
            wire::lemma_parse_of_encode(gs, other);
            assert(Seq::<FieldView>::empty() + gs =~= gs);
            lemma_arranged_again(shape, gs, gs.len() as int, other);
            assert(gs.take(gs.len() as int) =~= gs);
        }
    }
}

/// What a message is written as is written as itself.
pub proof fn lemma_held(shape: Shape, old: Seq<u8>, b: Seq<u8>, room: nat)
    ensures
        held(shape, old, b, room) matches Some(y) ==> is_held(shape, y),
{
    reveal(held);
    lemma_joined(shape, old, b, room);
    if let Some(y) = held(shape, old, b, room) {
        assert forall|other: nat| #[trigger] held(shape, Seq::empty(), y, other) == Some(y) by {
            assert(joined(shape, Seq::empty(), y, other) == Some(y));
        }
    }
}

/// A message is written in the order of its places, with no place twice but for
/// lists.
pub proof fn lemma_held_in_order(shape: Shape, old: Seq<u8>, b: Seq<u8>, room: nat)
    ensures
        held(shape, old, b, room) matches Some(y) ==> exists|gs: Seq<FieldView>| #[trigger]
            is_arranged(shape, gs) && y == wire::fields_bytes(gs),
{
    reveal(held);
    if let Some(y) = held(shape, old, b, room) {
        wire::lemma_parsed_tags(old, room);
        wire::lemma_parsed_tags(b, room);
        let fs = wire::parse_fields(old, room)->0 + wire::parse_fields(b, room)->0;
        lemma_arranged(shape, fs, room);
        let gs = arranged(shape, fs, room)->0;
        assert(is_arranged(shape, gs) && y == wire::fields_bytes(gs));
    }
}

// ---------------------------------------------------------------------------
// Reading and writing
// ---------------------------------------------------------------------------

fn narrow(s: Scalar, v: u64) -> (r: u64)
    ensures
        r == narrowed(s, v),
{
    match s {
        Scalar::Bool => if v != 0 {
            1
        } else {
            0
        },
        Scalar::Int32 => message::int32_to_bits(message::to_int32(v)),
        Scalar::Uint32 => message::to_uint32(v) as u64,
        _ => v,
    }
}

fn is_varint(s: Scalar) -> (r: bool)
    ensures
        r == is_number(s),
{
    match s {
        Scalar::Bool | Scalar::Int32 | Scalar::Uint32 | Scalar::Uint64 => true,
        _ => false,
    }
}

fn settle_value(s: Scalar, value: WireValueOf<Vec<u8>>) -> (r: Option<WireValueOf<Vec<u8>>>)
    ensures
        message::opt_view(r) == settled_value(s, value@),
{
    match (s, value) {
        (Scalar::Fixed32, WireValueOf::Fixed32(v)) => Some(WireValueOf::Fixed32(v)),
        (Scalar::Float, WireValueOf::Fixed32(v)) => Some(WireValueOf::Fixed32(v)),
        (Scalar::Bytes, WireValueOf::Bytes(b)) => Some(WireValueOf::Bytes(b)),
        (Scalar::Text, WireValueOf::Bytes(b)) => if text::from_utf8(b.clone()).is_some() {
            Some(WireValueOf::Bytes(b))
        } else {
            None
        },
        (_, WireValueOf::Varint(v)) => if is_varint(s) {
            Some(WireValueOf::Varint(narrow(s, v)))
        } else {
            None
        },
        _ => None,
    }
}

fn is_zero(s: Scalar, value: &WireValueOf<Vec<u8>>) -> (r: bool)
    ensures
        r == is_default(s, value@),
{
    match value {
        WireValueOf::Varint(v) => *v == 0,
        WireValueOf::Fixed32(v) => *v == 0 || (s == Scalar::Float && *v == 0x8000_0000),
        WireValueOf::Bytes(b) => b.len() == 0,
        _ => false,
    }
}

/// Puts what a run of varints is written as behind `out`; false where `b` is no
/// such run.
fn renumber(s: Scalar, b: &[u8], out: &mut Vec<u8>) -> (ok: bool)
    ensures
        ok <==> renumbered(s, b@) is Some,
        ok ==> final(out)@ == old(out)@ + renumbered(s, b@)->0,
{
    let mut rest = b;
    let ghost mut done: Seq<u8> = Seq::empty();
    assert(out@ =~= old(out)@ + done);
    while rest.len() > 0
        invariant
            renumbered(s, b@) is Some <==> renumbered(s, rest@) is Some,
            renumbered(s, rest@) is Some ==> renumbered(s, b@) == Some(
                done + renumbered(s, rest@)->0,
            ),
            out@ == old(out)@ + done,
        decreases rest@.len(),
    {
        proof {
            wire::lemma_read_varint_len(rest@);
        }
        match prost_decode_varint(rest) {
            Ok((v, after)) => {
                let w: u64 = narrow(s, v);
                prost_encode_varint(w, out);
                proof {
                    let x = wire::varint(w as nat);
                    assert(old(out)@ + done + x =~= old(out)@ + (done + x));
                    if let Some(y) = renumbered(s, after@) {
                        assert(done + (x + y) =~= done + x + y);
                    }
                    done = done + x;
                }
                rest = after;
            },
            Err(_) => return false,
        }
    }
    assert(done + Seq::<u8>::empty() =~= done);
    true
}

/// Puts what a field adds to a list behind `out`; false where its value is not of
/// the kind of the list.
fn pack(s: Scalar, value: &WireValueOf<Vec<u8>>, out: &mut Vec<u8>) -> (ok: bool)
    ensures
        ok <==> packed(s, value@) is Some,
        ok ==> final(out)@ == old(out)@ + packed(s, value@)->0,
{
    match value {
        WireValueOf::Fixed32(v) => {
            if s != Scalar::Fixed32 {
                return false;
            }
            let le = le32_bytes(*v);
            out.extend_from_slice(le.as_slice());
            assert(out@ =~= old(out)@ + wire::le32(*v));
            true
        },
        WireValueOf::Varint(v) => {
            if !is_varint(s) {
                return false;
            }
            prost_encode_varint(narrow(s, *v), out);
            true
        },
        WireValueOf::Bytes(b) => if is_varint(s) {
            renumber(s, b, out)
        } else if s == Scalar::Fixed32 && b.len() % 4 == 0 {
            out.extend_from_slice(b);
            assert(out@ =~= old(out)@ + b@);
            true
        } else {
            false
        },
        _ => false,
    }
}

fn is_sized(g: &Field)
    ensures
        wire::small(g@),
{
    if let WireValueOf::Bytes(b) = &g.value {
        let len: usize = b.len();
        assert(b@.len() == len);
    }
}

/// What the place of a field holds once the field is read.
fn enter(shape: Shape, old: Vec<u8>, f: Field, room: u32) -> (r: Option<Option<Field>>)
    ensures
        match r {
            Some(Some(g)) => entry(shape, old@, f@, room as nat) == Some(Some(g@)),
            Some(None) => entry(shape, old@, f@, room as nat) == Some(None::<FieldView>),
            None => entry(shape, old@, f@, room as nat) is None,
        },
    decreases rank(shape), 0nat,
{
    let tag: u32 = f.tag;
    match kind_of(shape, tag) {
        None => Some(None),
        Some(Kind::Plain(s)) => match settle_value(s, f.value) {
            Some(value) => if is_zero(s, &value) {
                Some(None)
            } else {
                let g = FieldOf { tag, value };
                is_sized(&g);
                Some(Some(g))
            },
            None => None,
        },
        Some(Kind::Optional(s)) => match settle_value(s, f.value) {
            Some(value) => {
                let g = FieldOf { tag, value };
                is_sized(&g);
                Some(Some(g))
            },
            None => None,
        },
        Some(Kind::List(s)) => match settle_value(s, f.value) {
            Some(value) => {
                let g = FieldOf { tag, value };
                is_sized(&g);
                Some(Some(g))
            },
            None => None,
        },
        Some(Kind::Packed(s)) => {
            let mut all = old;
            if !pack(s, &f.value, &mut all) {
                return None;
            }
            if all.len() == 0 {
                return Some(None);
            }
            let g = FieldOf { tag, value: WireValueOf::Bytes(all) };
            is_sized(&g);
            Some(Some(g))
        },
        Some(Kind::Message(inner)) => {
            proof {
                shape::lemma_rank(shape, tag);
            }
            match f.value {
                WireValueOf::Bytes(b) => match join(inner, &old, &b, inner_room(room)) {
                    Some(y) => Some(Some(FieldOf { tag, value: WireValueOf::Bytes(y) })),
                    None => None,
                },
                _ => None,
            }
        },
        Some(Kind::Messages(inner)) => {
            proof {
                shape::lemma_rank(shape, tag);
            }
            match f.value {
                WireValueOf::Bytes(b) => match join(inner, &[], &b, inner_room(room)) {
                    Some(y) => Some(Some(FieldOf { tag, value: WireValueOf::Bytes(y) })),
                    None => None,
                },
                _ => None,
            }
        },
    }
}

/// The first position of a field whose place is `bound` or behind it.
fn find_from(shape: Shape, gs: &Vec<Field>, bound: u64) -> (r: usize)
    ensures
        r == first_from(shape, wire::field_views(gs@), bound as nat, 0),
{
    let ghost views = wire::field_views(gs@);
    let n: usize = gs.len();
    let mut k: usize = 0;
    while k < n && (place_of(shape, gs[k].tag) as u64) < bound
        invariant
            k <= n == gs@.len() == views.len(),
            views == wire::field_views(gs@),
            first_from(shape, views, bound as nat, 0) == first_from(
                shape,
                views,
                bound as nat,
                k as nat,
            ),
        decreases n - k,
    {
        k += 1;
    }
    k
}

/// Reads one more field into fields in order; false where its value is not of its
/// kind.
pub(crate) fn place_field(shape: Shape, gs: &mut Vec<Field>, f: Field, room: u32) -> (ok: bool)
    ensures
        ok <==> placed(shape, wire::field_views(old(gs)@), f@, room as nat) is Some,
        ok ==> placed(shape, wire::field_views(old(gs)@), f@, room as nat) == Some(
            wire::field_views(final(gs)@),
        ),
    decreases rank(shape), 1nat,
{
    let ghost before = gs@;
    let ghost views = wire::field_views(before);
    let tag: u32 = f.tag;
    let k = match kind_of(shape, tag) {
        Some(k) => k,
        None => return true,
    };
    let at: u64 = place_of(shape, tag) as u64;
    let start: usize = find_from(shape, gs, at);
    let end: usize = find_from(shape, gs, at + 1);
    proof {
        lemma_places(shape, views, tag);
    }
    let mut old_bytes: Vec<u8> = Vec::new();
    if start < gs.len() && gs[start].tag == tag {
        if let WireValueOf::Bytes(b) = &gs[start].value {
            old_bytes = b.clone();
        }
    }
    assert(old_bytes@ =~= bytes_at(views, start as int, tag));
    let e = match enter(shape, old_bytes, f, room) {
        Some(e) => e,
        None => return false,
    };
    let ghost x = entry_fields(message::opt_view(e));
    let at: usize = match k {
        Kind::List(_) | Kind::Messages(_) => end,
        _ => start,
    };
    let mut tail = gs.split_off(end);
    gs.truncate(at);
    if let Some(g) = e {
        gs.push(g);
    }
    gs.append(&mut tail);
    assert(wire::field_views(gs@) =~= views.take(at as int) + x + views.skip(end as int));
    true
}

/// Once a prefix of the fields is refused, the whole is.
proof fn lemma_arranged_prefix(shape: Shape, fs: Seq<FieldView>, i: int, room: nat)
    requires
        0 <= i <= fs.len(),
        arranged(shape, fs.take(i), room) is None,
    ensures
        arranged(shape, fs, room) is None,
    decreases fs.len() - i,
{
    if i == fs.len() {
        assert(fs.take(i) =~= fs);
    } else {
        assert(fs.take(i + 1).drop_last() =~= fs.take(i));
        lemma_arranged_prefix(shape, fs, i + 1, room);
    }
}

/// What a message is written as of which first `old` and then `bytes` was read.
fn join(shape: Shape, old: &[u8], bytes: &[u8], room: u32) -> (r: Option<Vec<u8>>)
    ensures
        message::opt_view(r) == joined(shape, old@, bytes@, room as nat),
    decreases rank(shape), 2nat,
{
    let mut fields = match decode_fields_within(old, room) {
        Ok(fields) => fields,
        Err(_) => return None,
    };
    let mut more = match decode_fields_within(bytes, room) {
        Ok(fields) => fields,
        Err(_) => return None,
    };
    let ghost os = wire::field_views(fields@);
    let ghost ns = wire::field_views(more@);
    fields.append(&mut more);
    let ghost all = fields@;
    let ghost fs = wire::field_views(all);
    assert(fs =~= os + ns);
    let mut out: Vec<Field> = Vec::new();
    let n: usize = fields.len();
    let mut i: usize = 0;
    assert(fs.take(0) =~= Seq::empty());
    assert(wire::field_views(out@) =~= Seq::empty());
    while i < n
        invariant
            i <= n == all.len() == fields@.len(),
            fs == wire::field_views(all),
            fs == os + ns,
            wire::parse_fields(old@, room as nat) == Some(os),
            wire::parse_fields(bytes@, room as nat) == Some(ns),
            forall|j: int| i <= j < n ==> fields@[j] == all[j],
            arranged(shape, fs.take(i as int), room as nat) == Some(wire::field_views(out@)),
        decreases n - i,
    {
        let mut f: Field = FieldOf { tag: 0, value: WireValueOf::Group };
        std::mem::swap(&mut f, &mut fields[i]);
        assert(fs.take(i + 1).drop_last() =~= fs.take(i as int));
        assert(fs.take(i + 1).last() == f@);
        if !place_field(shape, &mut out, f, room) {
            proof {
                lemma_arranged_prefix(shape, fs, i + 1, room as nat);
            }
            return None;
        }
        i += 1;
    }
    assert(fs.take(n as int) =~= fs);
    let ghost gs = wire::field_views(out@);
    proof {
        wire::lemma_parsed_tags(old@, room as nat);
        wire::lemma_parsed_tags(bytes@, room as nat);
        lemma_arranged(shape, fs, room as nat);
    }
    let mut w = FieldWriter::new();
    let m: usize = out.len();
    let mut k: usize = 0;
    assert(gs.take(0) =~= Seq::empty());
    while k < m
        invariant
            k <= m == out@.len() == gs.len(),
            gs == wire::field_views(out@),
            is_arranged(shape, gs),
            w.wf(),
            w.fields() == gs.take(k as int),
        decreases m - k,
    {
        assert(is_settled(shape, gs[k as int]));
        w.put_field(&out[k]);
        assert(gs.take(k + 1) =~= gs.take(k as int).push(gs[k as int]));
        k += 1;
    }
    assert(gs.take(m as int) =~= gs);
    let written = w.finish();
    let len: usize = written.len();
    assert(written@.len() == len);
    Some(written)
}

/// As [`joined`], for the fields of other messages.
pub(crate) fn hold(shape: Shape, old: &[u8], bytes: &[u8], room: u32) -> (r: Option<Vec<u8>>)
    ensures
        message::opt_view(r) == held(shape, old@, bytes@, room as nat),
{
    reveal(held);
    join(shape, old, bytes, room)
}

// ---------------------------------------------------------------------------
// What is held of a field
// ---------------------------------------------------------------------------

/// The field of a number as it is held: the low bits that its kind has room for, a truth
/// value as one, a negative number with its sign in all 64 bits.
pub proof fn lemma_number_held(s: Scalar, v: u64)
    ensures
        s is Bool ==> settled_value(s, WireValueOf::Varint(v)) == Some(
            WireValueOf::<Seq<u8>>::Varint(
                if v == 0 {
                    0
                } else {
                    1
                },
            ),
        ),
        s is Uint32 ==> settled_value(s, WireValueOf::Varint(v)) == Some(
            WireValueOf::<Seq<u8>>::Varint(v % 0x1_0000_0000),
        ),
        s is Uint64 ==> settled_value(s, WireValueOf::Varint(v)) == Some(
            WireValueOf::<Seq<u8>>::Varint(v),
        ),
        s is Int32 && v % 0x1_0000_0000 < 0x8000_0000 ==> settled_value(s, WireValueOf::Varint(v))
            == Some(WireValueOf::<Seq<u8>>::Varint(v % 0x1_0000_0000)),
        s is Int32 && v % 0x1_0000_0000 >= 0x8000_0000 ==> settled_value(s, WireValueOf::Varint(v))
            == Some(
            WireValueOf::<Seq<u8>>::Varint((v % 0x1_0000_0000 + 0xffff_ffff_0000_0000) as u64),
        ),
        s is Fixed32 || s is Float || s is Bytes || s is Text ==> settled_value(
            s,
            WireValueOf::Varint(v),
        ) is None,
{
}

/// What is held of a message that was read from a single field. A number that stands for
/// nothing leaves nothing. A value of another wire type, or a text that is no UTF-8, is
/// refused. A value is held as [`lemma_number_held`] says or as it came, and where the
/// field is not optional, one that is zero or empty is left out.
pub proof fn lemma_single_held(shape: Shape, f: FieldView, room: nat)
    requires
        wire::encodable(f),
    ensures
        kind(shape, f.tag) is None ==> arranged(shape, seq![f], room) == Some(
            Seq::<FieldView>::empty(),
        ),
        kind(shape, f.tag) matches Some(Kind::Plain(s)) ==> (match f.value {
            WireValueOf::Varint(v) => match settled_value(s, f.value) {
                Some(WireValueOf::Varint(w)) => arranged(shape, seq![f], room) == Some(
                    if w == 0 {
                        Seq::<FieldView>::empty()
                    } else {
                        seq![FieldOf { tag: f.tag, value: WireValueOf::Varint(w) }]
                    },
                ),
                _ => arranged(shape, seq![f], room) is None,
            },
            WireValueOf::Fixed32(v) => if s is Fixed32 || s is Float {
                arranged(shape, seq![f], room) == Some(
                    if v == 0 || s is Float && v == 0x8000_0000 {
                        Seq::<FieldView>::empty()
                    } else {
                        seq![f]
                    },
                )
            } else {
                arranged(shape, seq![f], room) is None
            },
            WireValueOf::Bytes(b) => if s is Bytes || s is Text && text::utf8_decoded(b) is Some {
                arranged(shape, seq![f], room) == Some(
                    if b.len() == 0 {
                        Seq::<FieldView>::empty()
                    } else {
                        seq![f]
                    },
                )
            } else {
                arranged(shape, seq![f], room) is None
            },
            _ => arranged(shape, seq![f], room) is None,
        }),
        kind(shape, f.tag) matches Some(Kind::Optional(s)) ==> (match f.value {
            WireValueOf::Varint(v) => match settled_value(s, f.value) {
                Some(w) => arranged(shape, seq![f], room) == Some(
                    seq![FieldOf { tag: f.tag, value: w }],
                ),
                None => arranged(shape, seq![f], room) is None,
            },
            WireValueOf::Fixed32(v) => if s is Fixed32 || s is Float {
                arranged(shape, seq![f], room) == Some(seq![f])
            } else {
                arranged(shape, seq![f], room) is None
            },
            WireValueOf::Bytes(b) => if s is Bytes || s is Text && text::utf8_decoded(b) is Some {
                arranged(shape, seq![f], room) == Some(seq![f])
            } else {
                arranged(shape, seq![f], room) is None
            },
            _ => arranged(shape, seq![f], room) is None,
        }),
{
    let none = Seq::<FieldView>::empty();
    assert(seq![f].drop_last() =~= none);
    assert(arranged(shape, none, room) == Some(none));
    assert(arranged(shape, seq![f], room) == placed(shape, none, f, room));
    assert(bytes_at(none, start_of(shape, none, f.tag) as int, f.tag) =~= Seq::empty());
    assert(start_of(shape, none, f.tag) == 0);
    assert(end_of(shape, none, f.tag) == 0);
    if let Some(e) = entry(shape, Seq::empty(), f, room) {
        assert(spliced(shape, none, f.tag, e) =~= entry_fields(e));
    }
}

/// Reading a field leaves the fields in other places as they are.
pub proof fn lemma_others_held(
    shape: Shape,
    gs: Seq<FieldView>,
    f: FieldView,
    room: nat,
    other: FieldView,
)
    requires
        is_arranged(shape, gs),
        placed(shape, gs, f, room) is Some,
        1 <= f.tag <= MAX_TAG,
        place(shape, other.tag) != place(shape, f.tag),
    ensures
        gs.contains(other) <==> placed(shape, gs, f, room)->0.contains(other),
{
    if kind(shape, f.tag) is Some {
        let hs = placed(shape, gs, f, room)->0;
        let old = bytes_at(gs, start_of(shape, gs, f.tag) as int, f.tag);
        let e = entry(shape, old, f, room)->0;
        lemma_places(shape, gs, f.tag);
        let start = start_of(shape, gs, f.tag) as int;
        let end = end_of(shape, gs, f.tag) as int;
        let kept = if kind(shape, f.tag) matches Some(k) && is_list(k) {
            end
        } else {
            start
        };
        let n = entry_fields(e).len() as int;
        assert(hs =~= gs.take(kept) + entry_fields(e) + gs.skip(end));
        if gs.contains(other) {
            let i = choose|i: int| 0 <= i < gs.len() && gs[i] == other;
            if i < start {
                assert(hs[i] == other);
            } else {
                assert(i >= end);
                assert(hs[kept + n + i - end] == other);
            }
        }
        if hs.contains(other) {
            let i = choose|i: int| 0 <= i < hs.len() && hs[i] == other;
            if i < kept {
                assert(gs[i] == other);
            } else if i < kept + n {
                assert(entry_fields(e)[i - kept] == other);
                assert(false);
            } else {
                assert(gs[i - kept - n + end] == other);
            }
        }
    }
}

/// The value that is read last is the one that is held: where a field holds a single value,
/// reading it a second time leaves what reading it only then leaves.
pub proof fn lemma_last_held(shape: Shape, gs: Seq<FieldView>, f: FieldView, g: FieldView, room: nat)
    requires
        is_arranged(shape, gs),
        1 <= f.tag <= MAX_TAG,
        f.tag == g.tag,
        kind(shape, f.tag) matches Some(k) && (k is Plain || k is Optional),
        placed(shape, gs, f, room) is Some,
    ensures
        placed(shape, placed(shape, gs, f, room)->0, g, room) == placed(shape, gs, g, room),
{
    let old = bytes_at(gs, start_of(shape, gs, f.tag) as int, f.tag);
    let e = entry(shape, old, f, room)->0;
    let hs = placed(shape, gs, f, room)->0;
    let start = start_of(shape, gs, f.tag) as int;
    let end = end_of(shape, gs, f.tag) as int;
    lemma_places(shape, gs, f.tag);
    lemma_placed(shape, gs, f, room);
    lemma_places(shape, hs, f.tag);
    let n = entry_fields(e).len() as int;
    let start2 = start_of(shape, hs, f.tag) as int;
    let end2 = end_of(shape, hs, f.tag) as int;
    assert(hs =~= gs.take(start) + entry_fields(e) + gs.skip(end));
    if start2 < start {
        assert(hs[start2] == gs[start2]);
    }
    if start2 > start && start < hs.len() {
        if n > 0 {
            assert(hs[start] == entry_fields(e)[0]);
        } else {
            assert(hs[start] == gs[end]);
        }
    }
    if end2 < start + n {
        if end2 < start {
            assert(hs[end2] == gs[end2]);
        } else {
            assert(hs[end2] == entry_fields(e)[end2 - start]);
        }
    }
    if end2 > start + n {
        assert(hs[start + n] == gs[end]);
    }
    assert(start2 == start && end2 == start + n);
    assert(hs.take(start) =~= gs.take(start));
    assert(hs.skip(end2) =~= gs.skip(end));
}

} // verus!
