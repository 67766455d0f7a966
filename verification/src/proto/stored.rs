//! Stored configurations.
//!
//! The device state, the device configuration and the module configuration are
//! stored as messages with a version. [`Envelope`] reads the version and holds
//! every other field that the message knows in its wire form, in the order in
//! which the fields are written.

use crate::held::{self, place_field};
use crate::message::{self, to_uint32, FieldWriter, Message, RoundTrip};
use crate::shape::Shape;
use crate::wire::{self, Field, FieldView, WireValueOf};
use vstd::prelude::*;

verus! {

/// The field number of the version.
pub const VERSION_TAG: u32 = 8;

/// Marks the state of the device.
pub const DEVICE_STATE: u8 = 0;

/// Marks the configuration of the device.
pub const LOCAL_CONFIG: u8 = 1;

/// Marks the configuration of the modules.
pub const LOCAL_MODULE_CONFIG: u8 = 2;

/// The shape of a stored message.
pub open spec fn stored_shape(which: u8) -> Shape {
    if which == DEVICE_STATE {
        Shape::DeviceState
    } else if which == LOCAL_CONFIG {
        Shape::LocalConfig
    } else {
        Shape::LocalModuleConfig
    }
}

fn stored_shape_of(which: u8) -> (r: Shape)
    ensures
        r == stored_shape(which),
{
    if which == DEVICE_STATE {
        Shape::DeviceState
    } else if which == LOCAL_CONFIG {
        Shape::LocalConfig
    } else {
        Shape::LocalModuleConfig
    }
}

/// A stored message, over the type `L` of lists of fields.
#[verifier::ext_equal]
#[derive(Debug)]
pub struct EnvelopeOf<L, const WHICH: u8> {
    pub version: u32,
    /// The other fields.
    pub rest: L,
}

/// A stored message.
pub type Envelope<const WHICH: u8> = EnvelopeOf<Vec<Field>, WHICH>;

/// The model of an [`Envelope`].
pub type EnvelopeView<const WHICH: u8> = EnvelopeOf<Seq<FieldView>, WHICH>;

/// The state of the device, as it is stored.
pub type DeviceState = Envelope<DEVICE_STATE>;

/// The configuration of the device, as it is stored.
pub type LocalConfig = Envelope<LOCAL_CONFIG>;

/// The configuration of the modules, as it is stored.
pub type LocalModuleConfig = Envelope<LOCAL_MODULE_CONFIG>;

impl<const WHICH: u8> View for EnvelopeOf<Vec<Field>, WHICH> {
    type V = EnvelopeView<WHICH>;

    open spec fn view(&self) -> EnvelopeView<WHICH> {
        EnvelopeOf { version: self.version, rest: wire::field_views(self.rest@) }
    }
}

impl<const WHICH: u8> Default for EnvelopeOf<Vec<Field>, WHICH> {
    fn default() -> (r: Self)
        ensures
            r@ == Self::blank(),
    {
        Self::new_blank()
    }
}

/// Of the fields `fs`, those that are written.
pub open spec fn written(fs: Seq<FieldView>) -> Seq<FieldView>
    decreases fs.len(),
{
    if fs.len() == 0 {
        Seq::empty()
    } else {
        let before = written(fs.drop_last());
        if message::writable(fs.last()) {
            before.push(fs.last())
        } else {
            before
        }
    }
}

/// The first position from `k` on of a field that comes after the version.
pub open spec fn version_slot(fs: Seq<FieldView>, k: nat) -> nat
    decreases fs.len() - k,
{
    if k >= fs.len() {
        fs.len()
    } else if fs[k as int].tag > VERSION_TAG {
        k
    } else {
        version_slot(fs, k + 1)
    }
}

impl<const WHICH: u8> Message for EnvelopeOf<Vec<Field>, WHICH> {
    open spec fn blank() -> EnvelopeView<WHICH> {
        EnvelopeOf { version: 0, rest: Seq::empty() }
    }

    open spec fn merged(m: EnvelopeView<WHICH>, f: FieldView, room: nat) -> Option<
        EnvelopeView<WHICH>,
    > {
        match f.value {
            WireValueOf::Varint(v) if f.tag == VERSION_TAG => Some(
                EnvelopeOf { version: message::as_uint32(v), ..m },
            ),
            _ if f.tag == VERSION_TAG => None,
            _ => match held::placed(stored_shape(WHICH), m.rest, f, room) {
                Some(rest) => Some(EnvelopeOf { rest, ..m }),
                None => None,
            },
        }
    }

    open spec fn fields(m: EnvelopeView<WHICH>) -> Seq<FieldView> {
        let k = version_slot(m.rest, 0) as int;
        message::with_varint(written(m.rest.take(k)), VERSION_TAG, m.version as u64) + written(
            m.rest.skip(k),
        )
    }

    fn new_blank() -> (m: Self) {
        let m = EnvelopeOf { version: 0, rest: Vec::new() };
        assert(m@ =~= Self::blank());
        m
    }

    fn merge_field(&mut self, f: Field, room: u32) -> (ok: bool) {
        if f.tag == VERSION_TAG {
            return match f.value {
                WireValueOf::Varint(v) => {
                    self.version = to_uint32(v);
                    true
                },
                _ => false,
            };
        }
        place_field(stored_shape_of(WHICH), &mut self.rest, f, room)
    }

    fn encode_to_vec(&self) -> (bytes: Vec<u8>) {
        let mut w = FieldWriter::new();
        let n: usize = self.rest.len();
        let ghost rest = self@.rest;
        let mut k: usize = 0;
        assert(rest.take(0) =~= Seq::empty());
        while k < n && self.rest[k].tag <= VERSION_TAG
            invariant
                k <= n == self.rest@.len() == rest.len(),
                rest == self@.rest,
                version_slot(rest, 0) == version_slot(rest, k as nat),
                w.wf(),
                w.fields() == written(rest.take(k as int)),
            decreases n - k,
        {
            w.put_field(&self.rest[k]);
            assert(rest.take(k + 1).drop_last() =~= rest.take(k as int));
            assert(rest.take(k + 1).last() == rest[k as int]);
            k += 1;
        }
        assert(version_slot(rest, 0) == k);
        w.varint(VERSION_TAG, self.version as u64);
        let ghost head = w.fields();
        let ghost tail = rest.skip(k as int);
        let mut i: usize = k;
        assert(tail.take(0) =~= Seq::empty());
        assert(head + Seq::<FieldView>::empty() =~= head);
        while i < n
            invariant
                k <= i <= n == self.rest@.len() == rest.len(),
                rest == self@.rest,
                tail == rest.skip(k as int),
                w.wf(),
                w.fields() == head + written(tail.take(i - k)),
            decreases n - i,
        {
            w.put_field(&self.rest[i]);
            assert(tail.take(i + 1 - k).drop_last() =~= tail.take(i - k));
            assert(tail.take(i + 1 - k).last() == rest[i as int]);
            assert(head + written(tail.take(i - k)).push(rest[i as int]) =~= (head + written(
                tail.take(i - k),
            )).push(rest[i as int]));
            i += 1;
        }
        assert(tail.take(n - k) =~= tail);
        w.finish()
    }
}

/// Whether the fields beside the version are those that a message is written as.
pub open spec fn carried(which: u8, fs: Seq<FieldView>) -> bool {
    &&& held::is_arranged(stored_shape(which), fs)
    &&& forall|i: int| 0 <= i < fs.len() ==> (#[trigger] fs[i]).tag != VERSION_TAG
}

proof fn lemma_written(fs: Seq<FieldView>)
    requires
        wire::all_encodable(fs),
    ensures
        written(fs) == fs,
    decreases fs.len(),
{
    if fs.len() > 0 {
        assert(wire::encodable(fs[fs.len() - 1]));
        let before = fs.drop_last();
        assert(forall|i: int| 0 <= i < before.len() ==> #[trigger] before[i] == fs[i]);
        lemma_written(before);
        assert(fs.drop_last().push(fs.last()) =~= fs);
    }
}

proof fn lemma_version_slot(fs: Seq<FieldView>, k: nat)
    ensures
        version_slot(fs, k) <= fs.len(),
    decreases fs.len() - k,
{
    if k < fs.len() && fs[k as int].tag <= VERSION_TAG {
        lemma_version_slot(fs, k + 1);
    }
}

impl<const WHICH: u8> RoundTrip for EnvelopeOf<Vec<Field>, WHICH> {
    open spec fn canonical(m: EnvelopeView<WHICH>) -> bool {
        carried(WHICH, m.rest)
    }

    open spec fn settled(m: EnvelopeView<WHICH>) -> EnvelopeView<WHICH> {
        m
    }

    proof fn lemma_fields(m: EnvelopeView<WHICH>) {
        let k = version_slot(m.rest, 0) as int;
        let n = m.rest.len() as int;
        lemma_version_slot(m.rest, 0);
        let head = m.rest.take(k);
        let tail = m.rest.skip(k);
        assert forall|i: int| 0 <= i < n implies wire::encodable(#[trigger] m.rest[i]) by {
            assert(held::is_settled(stored_shape(WHICH), m.rest[i]));
        }
        assert(forall|i: int| 0 <= i < head.len() ==> #[trigger] head[i] == m.rest[i]);
        assert(forall|i: int| 0 <= i < tail.len() ==> #[trigger] tail[i] == m.rest[k + i]);
        lemma_written(head);
        lemma_written(tail);
        message::lemma_reads_start::<Self>();
        let m1 = EnvelopeOf { rest: head, ..Self::blank() };
        assert(m.rest.take(0) =~= Seq::empty());
        lemma_carried::<WHICH>(Seq::empty(), 0, m.rest, 0, k);
        assert(Seq::empty() + m.rest.subrange(0, k) =~= head);
        let m2 = EnvelopeOf { version: m.version, ..m1 };
        message::lemma_reads_varint::<Self>(head, m1, VERSION_TAG, m.version as u64, m2);
        let fs2 = message::with_varint(head, VERSION_TAG, m.version as u64);
        lemma_carried::<WHICH>(fs2, m.version, m.rest, k, n);
        assert(m.rest.subrange(k, n) =~= tail);
        assert(m.rest.take(n) =~= m.rest);
    }

    proof fn lemma_settled(m: EnvelopeView<WHICH>) {
    }

    proof fn lemma_blank() {
    }

    proof fn lemma_merged(m: EnvelopeView<WHICH>, f: FieldView, room: nat) {
        if f.tag != VERSION_TAG {
            let shape = stored_shape(WHICH);
            held::lemma_placed(shape, m.rest, f, room);
            let rest = held::placed(shape, m.rest, f, room)->0;
            assert forall|i: int| 0 <= i < rest.len() implies (#[trigger] rest[i]).tag
                != VERSION_TAG by {
                if rest[i].tag != f.tag {
                    assert(m.rest.contains(rest[i]));
                }
            }
        }
    }
}

/// Of fields beside the version that are in order, those from `a` to `b` come
/// behind those before them.
proof fn lemma_carried<const WHICH: u8>(
    fs: Seq<FieldView>,
    version: u32,
    rest: Seq<FieldView>,
    a: int,
    b: int,
)
    requires
        0 <= a <= b <= rest.len(),
        carried(WHICH, rest),
        message::reads_as::<Envelope<WHICH>>(fs, EnvelopeOf { version, rest: rest.take(a) }),
    ensures
        message::reads_as::<Envelope<WHICH>>(
            fs + rest.subrange(a, b),
            EnvelopeOf { version, rest: rest.take(b) },
        ),
{
    let gs = rest.subrange(a, b);
    let states = Seq::new(
        gs.len() + 1,
        |i: int| EnvelopeOf::<Seq<FieldView>, WHICH> { version, rest: rest.take(a + i) },
    );
    assert forall|i: int| 0 <= i < gs.len() implies wire::plain(#[trigger] gs[i])
        && (forall|room: nat| #[trigger]
        Envelope::<WHICH>::merged(states[i], gs[i], room) == Some(states[i + 1])) by {
        assert(gs[i] == rest[a + i]);
        assert(held::is_settled(stored_shape(WHICH), rest[a + i]));
        assert forall|room: nat| #[trigger]
            Envelope::<WHICH>::merged(states[i], gs[i], room) == Some(states[i + 1]) by {
            held::lemma_placed_next(stored_shape(WHICH), rest, a + i, room);
        }
    }
    message::lemma_reads_all::<Envelope<WHICH>>(fs, gs, states);
}

} // verus!
