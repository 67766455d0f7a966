//! Packets on the mesh: [`Data`], [`MeshPacket`] and [`Routing`].

use crate::held::{self, hold};
use crate::message::{
    self, inner_room, int32_to_bits, merge_bytes, to_int32, to_uint32, FieldWriter, Message,
    RoundTrip,
};
use crate::shape::Shape;
use crate::wire::{self, Field, FieldView, WireValueOf};
use vstd::prelude::*;

verus! {

/// The payload of a packet and the port that it is for.
#[verifier::ext_equal]
#[derive(Debug, PartialEq)]
pub struct DataOf<B> {
    pub portnum: i32,
    pub payload: B,
    pub want_response: bool,
    pub dest: u32,
    pub source: u32,
    pub request_id: u32,
    pub reply_id: u32,
    pub emoji: u32,
    pub bitfield: Option<u32>,
}

pub type Data = DataOf<Vec<u8>>;

pub type DataView = DataOf<Seq<u8>>;

impl View for DataOf<Vec<u8>> {
    type V = DataView;

    open spec fn view(&self) -> DataView {
        DataOf {
            portnum: self.portnum,
            payload: self.payload@,
            want_response: self.want_response,
            dest: self.dest,
            source: self.source,
            request_id: self.request_id,
            reply_id: self.reply_id,
            emoji: self.emoji,
            bitfield: self.bitfield,
        }
    }
}

impl Clone for DataOf<Vec<u8>> {
    fn clone(&self) -> (r: Self)
        ensures
            r@ == self@,
    {
        DataOf {
            portnum: self.portnum,
            payload: self.payload.clone(),
            want_response: self.want_response,
            dest: self.dest,
            source: self.source,
            request_id: self.request_id,
            reply_id: self.reply_id,
            emoji: self.emoji,
            bitfield: self.bitfield,
        }
    }
}

impl Default for DataOf<Vec<u8>> {
    fn default() -> (r: Self)
        ensures
            r@ == Self::blank(),
    {
        Self::new_blank()
    }
}

impl Message for DataOf<Vec<u8>> {
    open spec fn blank() -> DataView {
        DataOf {
            portnum: 0,
            payload: Seq::empty(),
            want_response: false,
            dest: 0,
            source: 0,
            request_id: 0,
            reply_id: 0,
            emoji: 0,
            bitfield: None,
        }
    }

    open spec fn merged(m: DataView, f: FieldView, room: nat) -> Option<DataView> {
        match (f.tag, f.value) {
            (1, WireValueOf::Varint(v)) => Some(DataOf { portnum: message::as_int32(v), ..m }),
            (2, WireValueOf::Bytes(b)) => Some(DataOf { payload: b, ..m }),
            (3, WireValueOf::Varint(v)) => Some(DataOf { want_response: v != 0, ..m }),
            (4, WireValueOf::Fixed32(v)) => Some(DataOf { dest: v, ..m }),
            (5, WireValueOf::Fixed32(v)) => Some(DataOf { source: v, ..m }),
            (6, WireValueOf::Fixed32(v)) => Some(DataOf { request_id: v, ..m }),
            (7, WireValueOf::Fixed32(v)) => Some(DataOf { reply_id: v, ..m }),
            (8, WireValueOf::Fixed32(v)) => Some(DataOf { emoji: v, ..m }),
            (9, WireValueOf::Varint(v)) => Some(
                DataOf { bitfield: Some(message::as_uint32(v)), ..m },
            ),
            _ if 1 <= f.tag <= 9 => None,
            _ => Some(m),
        }
    }

    open spec fn fields(m: DataView) -> Seq<FieldView> {
        let fs = message::with_varint(Seq::empty(), 1, message::int32_bits(m.portnum));
        let fs = message::with_bytes(fs, 2, m.payload);
        let fs = message::with_bool(fs, 3, m.want_response);
        let fs = message::with_fixed32(fs, 4, m.dest);
        let fs = message::with_fixed32(fs, 5, m.source);
        let fs = message::with_fixed32(fs, 6, m.request_id);
        let fs = message::with_fixed32(fs, 7, m.reply_id);
        let fs = message::with_fixed32(fs, 8, m.emoji);
        message::with_opt_varint(fs, 9, m.bitfield)
    }

    fn new_blank() -> (m: Self) {
        DataOf {
            portnum: 0,
            payload: Vec::new(),
            want_response: false,
            dest: 0,
            source: 0,
            request_id: 0,
            reply_id: 0,
            emoji: 0,
            bitfield: None,
        }
    }

    fn merge_field(&mut self, f: Field, room: u32) -> (ok: bool) {
        match (f.tag, f.value) {
            (1, WireValueOf::Varint(v)) => self.portnum = to_int32(v),
            (2, WireValueOf::Bytes(b)) => self.payload = b,
            (3, WireValueOf::Varint(v)) => self.want_response = v != 0,
            (4, WireValueOf::Fixed32(v)) => self.dest = v,
            (5, WireValueOf::Fixed32(v)) => self.source = v,
            (6, WireValueOf::Fixed32(v)) => self.request_id = v,
            (7, WireValueOf::Fixed32(v)) => self.reply_id = v,
            (8, WireValueOf::Fixed32(v)) => self.emoji = v,
            (9, WireValueOf::Varint(v)) => self.bitfield = Some(to_uint32(v)),
            _ => return !(1 <= f.tag && f.tag <= 9),
        }
        true
    }

    fn encode_to_vec(&self) -> (bytes: Vec<u8>) {
        let mut w = FieldWriter::new();
        w.varint(1, int32_to_bits(self.portnum));
        w.bytes(2, &self.payload);
        w.boolean(3, self.want_response);
        w.fixed32(4, self.dest);
        w.fixed32(5, self.source);
        w.fixed32(6, self.request_id);
        w.fixed32(7, self.reply_id);
        w.fixed32(8, self.emoji);
        w.opt_varint(9, self.bitfield);
        w.finish()
    }
}

impl RoundTrip for DataOf<Vec<u8>> {
    open spec fn canonical(m: DataView) -> bool {
        true
    }

    open spec fn settled(m: DataView) -> DataView {
        m
    }

    proof fn lemma_fields(m: DataView) {
        message::lemma_reads_start::<Self>();
        let m0 = Self::blank();
        let fs0 = Seq::<FieldView>::empty();
        let m1 = DataOf { portnum: m.portnum, ..m0 };
        let fs1 = message::with_varint(fs0, 1, message::int32_bits(m.portnum));
        message::lemma_int32(m.portnum);
        message::lemma_reads_varint::<Self>(fs0, m0, 1, message::int32_bits(m.portnum), m1);
        let m2 = DataOf { payload: m.payload, ..m1 };
        let fs2 = message::with_bytes(fs1, 2, m.payload);
        assert(m.payload.len() == 0 ==> m.payload =~= Seq::empty());
        message::lemma_reads_bytes::<Self>(fs1, m1, 2, m.payload, m2);
        let m3 = DataOf { want_response: m.want_response, ..m2 };
        let fs3 = message::with_bool(fs2, 3, m.want_response);
        message::lemma_reads_bool::<Self>(fs2, m2, 3, m.want_response, m3);
        let m4 = DataOf { dest: m.dest, ..m3 };
        let fs4 = message::with_fixed32(fs3, 4, m.dest);
        message::lemma_reads_fixed32::<Self>(fs3, m3, 4, m.dest, m4);
        let m5 = DataOf { source: m.source, ..m4 };
        let fs5 = message::with_fixed32(fs4, 5, m.source);
        message::lemma_reads_fixed32::<Self>(fs4, m4, 5, m.source, m5);
        let m6 = DataOf { request_id: m.request_id, ..m5 };
        let fs6 = message::with_fixed32(fs5, 6, m.request_id);
        message::lemma_reads_fixed32::<Self>(fs5, m5, 6, m.request_id, m6);
        let m7 = DataOf { reply_id: m.reply_id, ..m6 };
        let fs7 = message::with_fixed32(fs6, 7, m.reply_id);
        message::lemma_reads_fixed32::<Self>(fs6, m6, 7, m.reply_id, m7);
        let m8 = DataOf { emoji: m.emoji, ..m7 };
        let fs8 = message::with_fixed32(fs7, 8, m.emoji);
        message::lemma_reads_fixed32::<Self>(fs7, m7, 8, m.emoji, m8);
        let fs9 = message::with_opt_varint(fs8, 9, m.bitfield);
        message::lemma_reads_opt_varint::<Self>(fs8, m8, 9, m.bitfield, m);
    }

    proof fn lemma_settled(m: DataView) {
    }

    proof fn lemma_blank() {
    }

    proof fn lemma_merged(m: DataView, f: FieldView, room: nat) {
    }
}

/// The payload of a packet, in the clear or encrypted.
#[verifier::ext_equal]
#[derive(Debug, PartialEq)]
pub enum PayloadVariantOf<B> {
    Decoded(DataOf<B>),
    Encrypted(B),
}

pub type PayloadVariant = PayloadVariantOf<Vec<u8>>;

pub type PayloadVariantView = PayloadVariantOf<Seq<u8>>;

impl View for PayloadVariantOf<Vec<u8>> {
    type V = PayloadVariantView;

    open spec fn view(&self) -> PayloadVariantView {
        match self {
            PayloadVariantOf::Decoded(x) => PayloadVariantOf::Decoded(x@),
            PayloadVariantOf::Encrypted(x) => PayloadVariantOf::Encrypted(x@),
        }
    }
}

impl Clone for PayloadVariantOf<Vec<u8>> {
    fn clone(&self) -> (r: Self)
        ensures
            r@ == self@,
    {
        match self {
            PayloadVariantOf::Decoded(x) => PayloadVariantOf::Decoded(x.clone()),
            PayloadVariantOf::Encrypted(x) => PayloadVariantOf::Encrypted(x.clone()),
        }
    }
}

/// A packet as the mesh and the phone see it.
#[verifier::ext_equal]
#[derive(Debug, PartialEq)]
pub struct MeshPacketOf<B> {
    pub from: u32,
    pub to: u32,
    /// The channel index of a decoded packet, the channel hash of an encrypted one.
    pub channel: u32,
    pub payload_variant: Option<PayloadVariantOf<B>>,
    pub id: u32,
    pub rx_time: u32,
    /// The bits of the signal-to-noise ratio, an IEEE single.
    pub rx_snr: u32,
    pub hop_limit: u32,
    pub want_ack: bool,
    pub priority: i32,
    pub rx_rssi: i32,
    pub delayed: i32,
    pub via_mqtt: bool,
    pub hop_start: u32,
    pub public_key: B,
    pub pki_encrypted: bool,
    pub next_hop: u32,
    pub relay_node: u32,
    pub tx_after: u32,
    pub transport_mechanism: i32,
}

pub type MeshPacket = MeshPacketOf<Vec<u8>>;

pub type MeshPacketView = MeshPacketOf<Seq<u8>>;

impl View for MeshPacketOf<Vec<u8>> {
    type V = MeshPacketView;

    open spec fn view(&self) -> MeshPacketView {
        MeshPacketOf {
            from: self.from,
            to: self.to,
            channel: self.channel,
            payload_variant: message::opt_view(self.payload_variant),
            id: self.id,
            rx_time: self.rx_time,
            rx_snr: self.rx_snr,
            hop_limit: self.hop_limit,
            want_ack: self.want_ack,
            priority: self.priority,
            rx_rssi: self.rx_rssi,
            delayed: self.delayed,
            via_mqtt: self.via_mqtt,
            hop_start: self.hop_start,
            public_key: self.public_key@,
            pki_encrypted: self.pki_encrypted,
            next_hop: self.next_hop,
            relay_node: self.relay_node,
            tx_after: self.tx_after,
            transport_mechanism: self.transport_mechanism,
        }
    }
}

impl Clone for MeshPacketOf<Vec<u8>> {
    fn clone(&self) -> (r: Self)
        ensures
            r@ == self@,
    {
        MeshPacketOf {
            from: self.from,
            to: self.to,
            channel: self.channel,
            payload_variant: match &self.payload_variant {
                Some(x) => Some(x.clone()),
                None => None,
            },
            id: self.id,
            rx_time: self.rx_time,
            rx_snr: self.rx_snr,
            hop_limit: self.hop_limit,
            want_ack: self.want_ack,
            priority: self.priority,
            rx_rssi: self.rx_rssi,
            delayed: self.delayed,
            via_mqtt: self.via_mqtt,
            hop_start: self.hop_start,
            public_key: self.public_key.clone(),
            pki_encrypted: self.pki_encrypted,
            next_hop: self.next_hop,
            relay_node: self.relay_node,
            tx_after: self.tx_after,
            transport_mechanism: self.transport_mechanism,
        }
    }
}

impl Default for MeshPacketOf<Vec<u8>> {
    fn default() -> (r: Self)
        ensures
            r@ == Self::blank(),
    {
        Self::new_blank()
    }
}

impl Message for MeshPacketOf<Vec<u8>> {
    open spec fn blank() -> MeshPacketView {
        MeshPacketOf {
            from: 0,
            to: 0,
            channel: 0,
            payload_variant: None,
            id: 0,
            rx_time: 0,
            rx_snr: 0,
            hop_limit: 0,
            want_ack: false,
            priority: 0,
            rx_rssi: 0,
            delayed: 0,
            via_mqtt: false,
            hop_start: 0,
            public_key: Seq::empty(),
            pki_encrypted: false,
            next_hop: 0,
            relay_node: 0,
            tx_after: 0,
            transport_mechanism: 0,
        }
    }

    open spec fn merged(m: MeshPacketView, f: FieldView, room: nat) -> Option<MeshPacketView> {
        match (f.tag, f.value) {
            (1, WireValueOf::Fixed32(v)) => Some(MeshPacketOf { from: v, ..m }),
            (2, WireValueOf::Fixed32(v)) => Some(MeshPacketOf { to: v, ..m }),
            (3, WireValueOf::Varint(v)) => Some(
                MeshPacketOf { channel: message::as_uint32(v), ..m },
            ),
            (4, WireValueOf::Bytes(b)) => {
                let old = match m.payload_variant {
                    Some(PayloadVariantOf::Decoded(x)) => x,
                    _ => Data::blank(),
                };
                match message::merged_bytes::<Data>(old, b, message::inner(room)) {
                    Some(x) => Some(
                        MeshPacketOf { payload_variant: Some(PayloadVariantOf::Decoded(x)), ..m },
                    ),
                    None => None,
                }
            },
            (5, WireValueOf::Bytes(b)) => Some(
                MeshPacketOf { payload_variant: Some(PayloadVariantOf::Encrypted(b)), ..m },
            ),
            (6, WireValueOf::Fixed32(v)) => Some(MeshPacketOf { id: v, ..m }),
            (7, WireValueOf::Fixed32(v)) => Some(MeshPacketOf { rx_time: v, ..m }),
            (8, WireValueOf::Fixed32(v)) => Some(MeshPacketOf { rx_snr: v, ..m }),
            (9, WireValueOf::Varint(v)) => Some(
                MeshPacketOf { hop_limit: message::as_uint32(v), ..m },
            ),
            (10, WireValueOf::Varint(v)) => Some(MeshPacketOf { want_ack: v != 0, ..m }),
            (11, WireValueOf::Varint(v)) => Some(
                MeshPacketOf { priority: message::as_int32(v), ..m },
            ),
            (12, WireValueOf::Varint(v)) => Some(
                MeshPacketOf { rx_rssi: message::as_int32(v), ..m },
            ),
            (13, WireValueOf::Varint(v)) => Some(
                MeshPacketOf { delayed: message::as_int32(v), ..m },
            ),
            (14, WireValueOf::Varint(v)) => Some(MeshPacketOf { via_mqtt: v != 0, ..m }),
            (15, WireValueOf::Varint(v)) => Some(
                MeshPacketOf { hop_start: message::as_uint32(v), ..m },
            ),
            (16, WireValueOf::Bytes(b)) => Some(MeshPacketOf { public_key: b, ..m }),
            (17, WireValueOf::Varint(v)) => Some(MeshPacketOf { pki_encrypted: v != 0, ..m }),
            (18, WireValueOf::Varint(v)) => Some(
                MeshPacketOf { next_hop: message::as_uint32(v), ..m },
            ),
            (19, WireValueOf::Varint(v)) => Some(
                MeshPacketOf { relay_node: message::as_uint32(v), ..m },
            ),
            (20, WireValueOf::Varint(v)) => Some(
                MeshPacketOf { tx_after: message::as_uint32(v), ..m },
            ),
            (21, WireValueOf::Varint(v)) => Some(
                MeshPacketOf { transport_mechanism: message::as_int32(v), ..m },
            ),
            _ if 1 <= f.tag <= 21 => None,
            _ => Some(m),
        }
    }

    open spec fn fields(m: MeshPacketView) -> Seq<FieldView> {
        let fs = message::with_fixed32(Seq::empty(), 1, m.from);
        let fs = message::with_fixed32(fs, 2, m.to);
        let fs = message::with_varint(fs, 3, m.channel as u64);
        let fs = message::with_opt_field(fs, match m.payload_variant {
            Some(x) => Some(payload_variant_field(x)),
            None => None,
        });
        let fs = message::with_fixed32(fs, 6, m.id);
        let fs = message::with_fixed32(fs, 7, m.rx_time);
        let fs = message::with_float(fs, 8, m.rx_snr);
        let fs = message::with_varint(fs, 9, m.hop_limit as u64);
        let fs = message::with_bool(fs, 10, m.want_ack);
        let fs = message::with_varint(fs, 11, message::int32_bits(m.priority));
        let fs = message::with_varint(fs, 12, message::int32_bits(m.rx_rssi));
        let fs = message::with_varint(fs, 13, message::int32_bits(m.delayed));
        let fs = message::with_bool(fs, 14, m.via_mqtt);
        let fs = message::with_varint(fs, 15, m.hop_start as u64);
        let fs = message::with_bytes(fs, 16, m.public_key);
        let fs = message::with_bool(fs, 17, m.pki_encrypted);
        let fs = message::with_varint(fs, 18, m.next_hop as u64);
        let fs = message::with_varint(fs, 19, m.relay_node as u64);
        let fs = message::with_varint(fs, 20, m.tx_after as u64);
        message::with_varint(fs, 21, message::int32_bits(m.transport_mechanism))
    }

    fn new_blank() -> (m: Self) {
        MeshPacketOf {
            from: 0,
            to: 0,
            channel: 0,
            payload_variant: None,
            id: 0,
            rx_time: 0,
            rx_snr: 0,
            hop_limit: 0,
            want_ack: false,
            priority: 0,
            rx_rssi: 0,
            delayed: 0,
            via_mqtt: false,
            hop_start: 0,
            public_key: Vec::new(),
            pki_encrypted: false,
            next_hop: 0,
            relay_node: 0,
            tx_after: 0,
            transport_mechanism: 0,
        }
    }

    fn merge_field(&mut self, f: Field, room: u32) -> (ok: bool) {
        match (f.tag, f.value) {
            (1, WireValueOf::Fixed32(v)) => self.from = v,
            (2, WireValueOf::Fixed32(v)) => self.to = v,
            (3, WireValueOf::Varint(v)) => self.channel = to_uint32(v),
            (4, WireValueOf::Bytes(b)) => {
                let mut x = match self.payload_variant.take() {
                    Some(PayloadVariantOf::Decoded(x)) => x,
                    _ => Data::new_blank(),
                };
                if merge_bytes(&mut x, &b, inner_room(room)).is_err() {
                    return false;
                }
                self.payload_variant = Some(PayloadVariantOf::Decoded(x));
            },
            (5, WireValueOf::Bytes(b)) => self.payload_variant = Some(
                PayloadVariantOf::Encrypted(b),
            ),
            (6, WireValueOf::Fixed32(v)) => self.id = v,
            (7, WireValueOf::Fixed32(v)) => self.rx_time = v,
            (8, WireValueOf::Fixed32(v)) => self.rx_snr = v,
            (9, WireValueOf::Varint(v)) => self.hop_limit = to_uint32(v),
            (10, WireValueOf::Varint(v)) => self.want_ack = v != 0,
            (11, WireValueOf::Varint(v)) => self.priority = to_int32(v),
            (12, WireValueOf::Varint(v)) => self.rx_rssi = to_int32(v),
            (13, WireValueOf::Varint(v)) => self.delayed = to_int32(v),
            (14, WireValueOf::Varint(v)) => self.via_mqtt = v != 0,
            (15, WireValueOf::Varint(v)) => self.hop_start = to_uint32(v),
            (16, WireValueOf::Bytes(b)) => self.public_key = b,
            (17, WireValueOf::Varint(v)) => self.pki_encrypted = v != 0,
            (18, WireValueOf::Varint(v)) => self.next_hop = to_uint32(v),
            (19, WireValueOf::Varint(v)) => self.relay_node = to_uint32(v),
            (20, WireValueOf::Varint(v)) => self.tx_after = to_uint32(v),
            (21, WireValueOf::Varint(v)) => self.transport_mechanism = to_int32(v),
            _ => return !(1 <= f.tag && f.tag <= 21),
        }
        true
    }

    fn encode_to_vec(&self) -> (bytes: Vec<u8>) {
        let mut w = FieldWriter::new();
        w.fixed32(1, self.from);
        w.fixed32(2, self.to);
        w.varint(3, self.channel as u64);
        proof {
            reveal(message::with_opt_field);
            reveal(payload_variant_field);
        }
        match &self.payload_variant {
            Some(PayloadVariantOf::Decoded(x)) => w.put_message(4, x),
            Some(PayloadVariantOf::Encrypted(x)) => w.put_bytes(5, x),
            None => {},
        }
        w.fixed32(6, self.id);
        w.fixed32(7, self.rx_time);
        w.float(8, self.rx_snr);
        w.varint(9, self.hop_limit as u64);
        w.boolean(10, self.want_ack);
        w.varint(11, int32_to_bits(self.priority));
        w.varint(12, int32_to_bits(self.rx_rssi));
        w.varint(13, int32_to_bits(self.delayed));
        w.boolean(14, self.via_mqtt);
        w.varint(15, self.hop_start as u64);
        w.bytes(16, &self.public_key);
        w.boolean(17, self.pki_encrypted);
        w.varint(18, self.next_hop as u64);
        w.varint(19, self.relay_node as u64);
        w.varint(20, self.tx_after as u64);
        w.varint(21, int32_to_bits(self.transport_mechanism));
        w.finish()
    }
}

/// The field that a variant is written as.
#[verifier::opaque]
pub open spec fn payload_variant_field(x: PayloadVariantView) -> FieldView {
    match x {
        PayloadVariantOf::Decoded(x) => message::bytes_field(4, message::encoded::<Data>(x)),
        PayloadVariantOf::Encrypted(x) => message::bytes_field(5, x),
    }
}

/// Whether a variant reads back as it was written.
#[verifier::opaque]
pub open spec fn payload_variant_canonical(x: PayloadVariantView) -> bool {
    match x {
        PayloadVariantOf::Decoded(x) => Data::canonical(x),
        _ => true,
    }
}

proof fn lemma_payload_variant(m: MeshPacketView, x: PayloadVariantView)
    requires
        m.payload_variant is None,
        payload_variant_canonical(x),
    ensures
        wire::plain(payload_variant_field(x)),
        wire::small(payload_variant_field(x)) ==> forall|room: nat| #[trigger]
            MeshPacket::merged(m, payload_variant_field(x), room) == Some(
                MeshPacketOf { payload_variant: Some(x), ..m },
            ),
{
    reveal(payload_variant_field);
    reveal(payload_variant_canonical);
    match x {
        PayloadVariantOf::Decoded(x) => message::lemma_embedded::<Data>(Some(x)),
        _ => {},
    }
}

/// A variant as it reads back.
#[verifier::opaque]
pub open spec fn payload_variant_settled(x: PayloadVariantView) -> PayloadVariantView {
    match x {
        PayloadVariantOf::Decoded(x) => PayloadVariantOf::Decoded(Data::settled(x)),
        _ => x,
    }
}

proof fn lemma_payload_variant_settled(x: PayloadVariantView)
    ensures
        payload_variant_field(payload_variant_settled(x)) == payload_variant_field(x),
{
    reveal(payload_variant_field);
    reveal(payload_variant_settled);
    match x {
        PayloadVariantOf::Decoded(x) => Data::lemma_settled(x),
        _ => {},
    }
}

impl RoundTrip for MeshPacketOf<Vec<u8>> {
    open spec fn canonical(m: MeshPacketView) -> bool {
        &&& m.payload_variant matches Some(x) ==> payload_variant_canonical(x)
        &&& m.rx_snr != 0x8000_0000
    }

    open spec fn settled(m: MeshPacketView) -> MeshPacketView {
        MeshPacketOf {
            payload_variant: match m.payload_variant {
                Some(x) => Some(payload_variant_settled(x)),
                None => None,
            },
            rx_snr: message::settled_float(m.rx_snr),
            ..m
        }
    }

    proof fn lemma_fields(m: MeshPacketView) {
        message::lemma_reads_start::<Self>();
        let m0 = Self::blank();
        let fs0 = Seq::<FieldView>::empty();
        let m1 = MeshPacketOf { from: m.from, ..m0 };
        let fs1 = message::with_fixed32(fs0, 1, m.from);
        message::lemma_reads_fixed32::<Self>(fs0, m0, 1, m.from, m1);
        let m2 = MeshPacketOf { to: m.to, ..m1 };
        let fs2 = message::with_fixed32(fs1, 2, m.to);
        message::lemma_reads_fixed32::<Self>(fs1, m1, 2, m.to, m2);
        let m3 = MeshPacketOf { channel: m.channel, ..m2 };
        let fs3 = message::with_varint(fs2, 3, m.channel as u64);
        message::lemma_reads_varint::<Self>(fs2, m2, 3, m.channel as u64, m3);
        let m4 = MeshPacketOf { payload_variant: m.payload_variant, ..m3 };
        let fs4 = message::with_opt_field(fs3, match m.payload_variant {
            Some(x) => Some(payload_variant_field(x)),
            None => None,
        });
        if let Some(x) = m.payload_variant {
            lemma_payload_variant(m3, x);
        }
        message::lemma_reads_opt_field::<Self>(
            fs3,
            m3,
            match m.payload_variant {
                Some(x) => Some(payload_variant_field(x)),
                None => None,
            },
            m4,
        );
        let m5 = MeshPacketOf { id: m.id, ..m4 };
        let fs5 = message::with_fixed32(fs4, 6, m.id);
        message::lemma_reads_fixed32::<Self>(fs4, m4, 6, m.id, m5);
        let m6 = MeshPacketOf { rx_time: m.rx_time, ..m5 };
        let fs6 = message::with_fixed32(fs5, 7, m.rx_time);
        message::lemma_reads_fixed32::<Self>(fs5, m5, 7, m.rx_time, m6);
        let m7 = MeshPacketOf { rx_snr: m.rx_snr, ..m6 };
        let fs7 = message::with_float(fs6, 8, m.rx_snr);
        message::lemma_reads_float::<Self>(fs6, m6, 8, m.rx_snr, m7);
        let m8 = MeshPacketOf { hop_limit: m.hop_limit, ..m7 };
        let fs8 = message::with_varint(fs7, 9, m.hop_limit as u64);
        message::lemma_reads_varint::<Self>(fs7, m7, 9, m.hop_limit as u64, m8);
        let m9 = MeshPacketOf { want_ack: m.want_ack, ..m8 };
        let fs9 = message::with_bool(fs8, 10, m.want_ack);
        message::lemma_reads_bool::<Self>(fs8, m8, 10, m.want_ack, m9);
        let m10 = MeshPacketOf { priority: m.priority, ..m9 };
        let fs10 = message::with_varint(fs9, 11, message::int32_bits(m.priority));
        message::lemma_int32(m.priority);
        message::lemma_reads_varint::<Self>(fs9, m9, 11, message::int32_bits(m.priority), m10);
        let m11 = MeshPacketOf { rx_rssi: m.rx_rssi, ..m10 };
        let fs11 = message::with_varint(fs10, 12, message::int32_bits(m.rx_rssi));
        message::lemma_int32(m.rx_rssi);
        message::lemma_reads_varint::<Self>(fs10, m10, 12, message::int32_bits(m.rx_rssi), m11);
        let m12 = MeshPacketOf { delayed: m.delayed, ..m11 };
        let fs12 = message::with_varint(fs11, 13, message::int32_bits(m.delayed));
        message::lemma_int32(m.delayed);
        message::lemma_reads_varint::<Self>(fs11, m11, 13, message::int32_bits(m.delayed), m12);
        let m13 = MeshPacketOf { via_mqtt: m.via_mqtt, ..m12 };
        let fs13 = message::with_bool(fs12, 14, m.via_mqtt);
        message::lemma_reads_bool::<Self>(fs12, m12, 14, m.via_mqtt, m13);
        let m14 = MeshPacketOf { hop_start: m.hop_start, ..m13 };
        let fs14 = message::with_varint(fs13, 15, m.hop_start as u64);
        message::lemma_reads_varint::<Self>(fs13, m13, 15, m.hop_start as u64, m14);
        let m15 = MeshPacketOf { public_key: m.public_key, ..m14 };
        let fs15 = message::with_bytes(fs14, 16, m.public_key);
        assert(m.public_key.len() == 0 ==> m.public_key =~= Seq::empty());
        message::lemma_reads_bytes::<Self>(fs14, m14, 16, m.public_key, m15);
        let m16 = MeshPacketOf { pki_encrypted: m.pki_encrypted, ..m15 };
        let fs16 = message::with_bool(fs15, 17, m.pki_encrypted);
        message::lemma_reads_bool::<Self>(fs15, m15, 17, m.pki_encrypted, m16);
        let m17 = MeshPacketOf { next_hop: m.next_hop, ..m16 };
        let fs17 = message::with_varint(fs16, 18, m.next_hop as u64);
        message::lemma_reads_varint::<Self>(fs16, m16, 18, m.next_hop as u64, m17);
        let m18 = MeshPacketOf { relay_node: m.relay_node, ..m17 };
        let fs18 = message::with_varint(fs17, 19, m.relay_node as u64);
        message::lemma_reads_varint::<Self>(fs17, m17, 19, m.relay_node as u64, m18);
        let m19 = MeshPacketOf { tx_after: m.tx_after, ..m18 };
        let fs19 = message::with_varint(fs18, 20, m.tx_after as u64);
        message::lemma_reads_varint::<Self>(fs18, m18, 20, m.tx_after as u64, m19);
        let fs20 = message::with_varint(fs19, 21, message::int32_bits(m.transport_mechanism));
        message::lemma_int32(m.transport_mechanism);
        message::lemma_reads_varint::<Self>(
            fs19,
            m19,
            21,
            message::int32_bits(m.transport_mechanism),
            m,
        );
    }

    proof fn lemma_settled(m: MeshPacketView) {
        let fs0 = Seq::<FieldView>::empty();
        let fs1 = message::with_fixed32(fs0, 1, m.from);
        let fs2 = message::with_fixed32(fs1, 2, m.to);
        let fs3 = message::with_varint(fs2, 3, m.channel as u64);
        if let Some(x) = m.payload_variant {
            lemma_payload_variant_settled(x);
        }
        let fs4 = message::with_opt_field(fs3, match m.payload_variant {
            Some(x) => Some(payload_variant_field(x)),
            None => None,
        });
        let fs5 = message::with_fixed32(fs4, 6, m.id);
        let fs6 = message::with_fixed32(fs5, 7, m.rx_time);
        message::lemma_settled_float(fs6, 8, m.rx_snr);
    }

    proof fn lemma_blank() {
    }

    proof fn lemma_merged(m: MeshPacketView, f: FieldView, room: nat) {
        reveal(payload_variant_canonical);
        reveal(payload_variant_settled);
        match (f.tag, f.value) {
            (4, WireValueOf::Bytes(b)) => message::lemma_merged_message::<Data>(
                match m.payload_variant {
                    Some(PayloadVariantOf::Decoded(x)) => Some(x),
                    _ => None,
                },
                b,
                message::inner(room),
            ),
            _ => {},
        }
    }
}

/// What a routing message says. Routes are held in their wire form.
#[verifier::ext_equal]
#[derive(Debug, PartialEq)]
pub enum RoutingVariantOf<B> {
    RouteRequest(B),
    RouteReply(B),
    ErrorReason(i32),
}

pub type RoutingVariant = RoutingVariantOf<Vec<u8>>;

pub type RoutingVariantView = RoutingVariantOf<Seq<u8>>;

impl View for RoutingVariantOf<Vec<u8>> {
    type V = RoutingVariantView;

    open spec fn view(&self) -> RoutingVariantView {
        match self {
            RoutingVariantOf::RouteRequest(x) => RoutingVariantOf::RouteRequest(x@),
            RoutingVariantOf::RouteReply(x) => RoutingVariantOf::RouteReply(x@),
            RoutingVariantOf::ErrorReason(x) => RoutingVariantOf::ErrorReason(*x),
        }
    }
}

impl Clone for RoutingVariantOf<Vec<u8>> {
    fn clone(&self) -> (r: Self)
        ensures
            r@ == self@,
    {
        match self {
            RoutingVariantOf::RouteRequest(x) => RoutingVariantOf::RouteRequest(x.clone()),
            RoutingVariantOf::RouteReply(x) => RoutingVariantOf::RouteReply(x.clone()),
            RoutingVariantOf::ErrorReason(x) => RoutingVariantOf::ErrorReason(*x),
        }
    }
}

/// A message between routers.
#[verifier::ext_equal]
#[derive(Debug, PartialEq)]
pub struct RoutingOf<B> {
    pub variant: Option<RoutingVariantOf<B>>,
}

pub type Routing = RoutingOf<Vec<u8>>;

pub type RoutingView = RoutingOf<Seq<u8>>;

impl View for RoutingOf<Vec<u8>> {
    type V = RoutingView;

    open spec fn view(&self) -> RoutingView {
        RoutingOf {
            variant: message::opt_view(self.variant),
        }
    }
}

impl Clone for RoutingOf<Vec<u8>> {
    fn clone(&self) -> (r: Self)
        ensures
            r@ == self@,
    {
        RoutingOf {
            variant: match &self.variant {
                Some(x) => Some(x.clone()),
                None => None,
            },
        }
    }
}

impl Default for RoutingOf<Vec<u8>> {
    fn default() -> (r: Self)
        ensures
            r@ == Self::blank(),
    {
        Self::new_blank()
    }
}

impl Message for RoutingOf<Vec<u8>> {
    open spec fn blank() -> RoutingView {
        RoutingOf {
            variant: None,
        }
    }

    open spec fn merged(m: RoutingView, f: FieldView, room: nat) -> Option<RoutingView> {
        match (f.tag, f.value) {
            (1, WireValueOf::Bytes(b)) => {
                let old = match m.variant {
                    Some(RoutingVariantOf::RouteRequest(x)) => x,
                    _ => Seq::empty(),
                };
                match held::held(Shape::RouteDiscovery, old, b, message::inner(room)) {
                    Some(x) => Some(
                        RoutingOf { variant: Some(RoutingVariantOf::RouteRequest(x)), ..m },
                    ),
                    None => None,
                }
            },
            (2, WireValueOf::Bytes(b)) => {
                let old = match m.variant {
                    Some(RoutingVariantOf::RouteReply(x)) => x,
                    _ => Seq::empty(),
                };
                match held::held(Shape::RouteDiscovery, old, b, message::inner(room)) {
                    Some(x) => Some(
                        RoutingOf { variant: Some(RoutingVariantOf::RouteReply(x)), ..m },
                    ),
                    None => None,
                }
            },
            (3, WireValueOf::Varint(v)) => Some(
                RoutingOf {
                    variant: Some(RoutingVariantOf::ErrorReason(message::as_int32(v))),
                    ..m
                },
            ),
            _ if 1 <= f.tag <= 3 => None,
            _ => Some(m),
        }
    }

    open spec fn fields(m: RoutingView) -> Seq<FieldView> {
        message::with_opt_field(Seq::empty(), match m.variant {
            Some(x) => Some(routing_variant_field(x)),
            None => None,
        })
    }

    fn new_blank() -> (m: Self) {
        RoutingOf {
            variant: None,
        }
    }

    fn merge_field(&mut self, f: Field, room: u32) -> (ok: bool) {
        match (f.tag, f.value) {
            (1, WireValueOf::Bytes(b)) => {
                let x = match self.variant.take() {
                    Some(RoutingVariantOf::RouteRequest(x)) => x,
                    _ => Vec::new(),
                };
                match hold(Shape::RouteDiscovery, &x, &b, inner_room(room)) {
                    Some(y) => self.variant = Some(RoutingVariantOf::RouteRequest(y)),
                    None => return false,
                }
            },
            (2, WireValueOf::Bytes(b)) => {
                let x = match self.variant.take() {
                    Some(RoutingVariantOf::RouteReply(x)) => x,
                    _ => Vec::new(),
                };
                match hold(Shape::RouteDiscovery, &x, &b, inner_room(room)) {
                    Some(y) => self.variant = Some(RoutingVariantOf::RouteReply(y)),
                    None => return false,
                }
            },
            (3, WireValueOf::Varint(v)) => self.variant = Some(
                RoutingVariantOf::ErrorReason(to_int32(v)),
            ),
            _ => return !(1 <= f.tag && f.tag <= 3),
        }
        true
    }

    fn encode_to_vec(&self) -> (bytes: Vec<u8>) {
        let mut w = FieldWriter::new();
        proof {
            reveal(message::with_opt_field);
            reveal(routing_variant_field);
        }
        match &self.variant {
            Some(RoutingVariantOf::RouteRequest(x)) => w.put_bytes(1, x),
            Some(RoutingVariantOf::RouteReply(x)) => w.put_bytes(2, x),
            Some(RoutingVariantOf::ErrorReason(x)) => w.put_varint(3, int32_to_bits(*x)),
            None => {},
        }
        w.finish()
    }
}

/// The field that a variant is written as.
#[verifier::opaque]
pub open spec fn routing_variant_field(x: RoutingVariantView) -> FieldView {
    match x {
        RoutingVariantOf::RouteRequest(x) => message::bytes_field(1, x),
        RoutingVariantOf::RouteReply(x) => message::bytes_field(2, x),
        RoutingVariantOf::ErrorReason(x) => message::varint_field(3, message::int32_bits(x)),
    }
}

/// Whether a variant reads back as it was written.
#[verifier::opaque]
pub open spec fn routing_variant_canonical(x: RoutingVariantView) -> bool {
    match x {
        RoutingVariantOf::RouteRequest(x) => held::is_held(Shape::RouteDiscovery, x),
        RoutingVariantOf::RouteReply(x) => held::is_held(Shape::RouteDiscovery, x),
        _ => true,
    }
}

proof fn lemma_routing_variant(m: RoutingView, x: RoutingVariantView)
    requires
        m.variant is None,
        routing_variant_canonical(x),
    ensures
        wire::plain(routing_variant_field(x)),
        wire::small(routing_variant_field(x)) ==> forall|room: nat| #[trigger]
            Routing::merged(m, routing_variant_field(x), room) == Some(
                RoutingOf { variant: Some(x), ..m },
            ),
{
    reveal(routing_variant_field);
    reveal(routing_variant_canonical);
    if let RoutingVariantOf::ErrorReason(x) = x {
        message::lemma_int32(x);
    }
}

impl RoundTrip for RoutingOf<Vec<u8>> {
    open spec fn canonical(m: RoutingView) -> bool {
        m.variant matches Some(x) ==> routing_variant_canonical(x)
    }

    open spec fn settled(m: RoutingView) -> RoutingView {
        m
    }

    proof fn lemma_fields(m: RoutingView) {
        message::lemma_reads_start::<Self>();
        let m0 = Self::blank();
        let fs0 = Seq::<FieldView>::empty();
        let fs1 = message::with_opt_field(fs0, match m.variant {
            Some(x) => Some(routing_variant_field(x)),
            None => None,
        });
        if let Some(x) = m.variant {
            lemma_routing_variant(m0, x);
        }
        message::lemma_reads_opt_field::<Self>(
            fs0,
            m0,
            match m.variant {
                Some(x) => Some(routing_variant_field(x)),
                None => None,
            },
            m,
        );
    }

    proof fn lemma_settled(m: RoutingView) {
    }

    proof fn lemma_blank() {
    }

    proof fn lemma_merged(m: RoutingView, f: FieldView, room: nat) {
        reveal(routing_variant_canonical);
        if let WireValueOf::Bytes(b) = f.value {
            let old = match m.variant {
                Some(RoutingVariantOf::RouteRequest(x)) if f.tag == 1 => x,
                Some(RoutingVariantOf::RouteReply(x)) if f.tag == 2 => x,
                _ => Seq::empty(),
            };
            held::lemma_held(Shape::RouteDiscovery, old, b, message::inner(room));
        }
    }
}

} // verus!
