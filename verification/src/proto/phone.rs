//! The frames between the device and the phone.

use crate::message::{
    self, inner_room, int32_to_bits, merge_bytes, to_int32, to_uint32, FieldWriter, Message,
    RoundTrip,
};
use crate::proto::channel::{Channel, ChannelOf};
use crate::proto::config::{Config, ConfigOf, ModuleConfig};
use crate::proto::node::{
    DeviceMetadata, DeviceMetadataOf, MyNodeInfo, MyNodeInfoOf, NodeInfo, NodeInfoOf,
};
use crate::proto::packet::{MeshPacket, MeshPacketOf};
use crate::text;
use crate::wire::{self, Field, FieldView, WireValueOf};
use vstd::prelude::*;

verus! {

/// The state of the transmit queue.
#[verifier::ext_equal]
#[derive(Debug, PartialEq)]
pub struct QueueStatus {
    pub res: i32,
    pub free: u32,
    pub maxlen: u32,
    pub mesh_packet_id: u32,
}

impl View for QueueStatus {
    type V = QueueStatus;

    open spec fn view(&self) -> QueueStatus {
        *self
    }
}

impl Clone for QueueStatus {
    fn clone(&self) -> (r: Self)
        ensures
            r@ == self@,
    {
        QueueStatus {
            res: self.res,
            free: self.free,
            maxlen: self.maxlen,
            mesh_packet_id: self.mesh_packet_id,
        }
    }
}

impl Default for QueueStatus {
    fn default() -> (r: Self)
        ensures
            r@ == Self::blank(),
    {
        Self::new_blank()
    }
}

impl Message for QueueStatus {
    open spec fn blank() -> QueueStatus {
        QueueStatus {
            res: 0,
            free: 0,
            maxlen: 0,
            mesh_packet_id: 0,
        }
    }

    open spec fn merged(m: QueueStatus, f: FieldView, room: nat) -> Option<QueueStatus> {
        match (f.tag, f.value) {
            (1, WireValueOf::Varint(v)) => Some(QueueStatus { res: message::as_int32(v), ..m }),
            (2, WireValueOf::Varint(v)) => Some(QueueStatus { free: message::as_uint32(v), ..m }),
            (3, WireValueOf::Varint(v)) => Some(QueueStatus { maxlen: message::as_uint32(v), ..m }),
            (4, WireValueOf::Varint(v)) => Some(
                QueueStatus { mesh_packet_id: message::as_uint32(v), ..m },
            ),
            _ if 1 <= f.tag <= 4 => None,
            _ => Some(m),
        }
    }

    open spec fn fields(m: QueueStatus) -> Seq<FieldView> {
        let fs = message::with_varint(Seq::empty(), 1, message::int32_bits(m.res));
        let fs = message::with_varint(fs, 2, m.free as u64);
        let fs = message::with_varint(fs, 3, m.maxlen as u64);
        message::with_varint(fs, 4, m.mesh_packet_id as u64)
    }

    fn new_blank() -> (m: Self) {
        QueueStatus {
            res: 0,
            free: 0,
            maxlen: 0,
            mesh_packet_id: 0,
        }
    }

    fn merge_field(&mut self, f: Field, room: u32) -> (ok: bool) {
        match (f.tag, f.value) {
            (1, WireValueOf::Varint(v)) => self.res = to_int32(v),
            (2, WireValueOf::Varint(v)) => self.free = to_uint32(v),
            (3, WireValueOf::Varint(v)) => self.maxlen = to_uint32(v),
            (4, WireValueOf::Varint(v)) => self.mesh_packet_id = to_uint32(v),
            _ => return !(1 <= f.tag && f.tag <= 4),
        }
        true
    }

    fn encode_to_vec(&self) -> (bytes: Vec<u8>) {
        let mut w = FieldWriter::new();
        w.varint(1, int32_to_bits(self.res));
        w.varint(2, self.free as u64);
        w.varint(3, self.maxlen as u64);
        w.varint(4, self.mesh_packet_id as u64);
        w.finish()
    }
}

impl RoundTrip for QueueStatus {
    open spec fn canonical(m: QueueStatus) -> bool {
        true
    }

    open spec fn settled(m: QueueStatus) -> QueueStatus {
        m
    }

    proof fn lemma_fields(m: QueueStatus) {
        message::lemma_reads_start::<Self>();
        let m0 = Self::blank();
        let fs0 = Seq::<FieldView>::empty();
        let m1 = QueueStatus { res: m.res, ..m0 };
        let fs1 = message::with_varint(fs0, 1, message::int32_bits(m.res));
        message::lemma_int32(m.res);
        message::lemma_reads_varint::<Self>(fs0, m0, 1, message::int32_bits(m.res), m1);
        let m2 = QueueStatus { free: m.free, ..m1 };
        let fs2 = message::with_varint(fs1, 2, m.free as u64);
        message::lemma_reads_varint::<Self>(fs1, m1, 2, m.free as u64, m2);
        let m3 = QueueStatus { maxlen: m.maxlen, ..m2 };
        let fs3 = message::with_varint(fs2, 3, m.maxlen as u64);
        message::lemma_reads_varint::<Self>(fs2, m2, 3, m.maxlen as u64, m3);
        let fs4 = message::with_varint(fs3, 4, m.mesh_packet_id as u64);
        message::lemma_reads_varint::<Self>(fs3, m3, 4, m.mesh_packet_id as u64, m);
    }

    proof fn lemma_settled(m: QueueStatus) {
    }

    proof fn lemma_blank() {
    }

    proof fn lemma_merged(m: QueueStatus, f: FieldView, room: nat) {
    }
}

/// A line of the device log.
#[verifier::ext_equal]
#[derive(Debug, PartialEq)]
pub struct LogRecordOf<S> {
    pub message: S,
    pub time: u32,
    pub source: S,
    pub level: i32,
}

pub type LogRecord = LogRecordOf<String>;

pub type LogRecordView = LogRecordOf<Seq<char>>;

impl View for LogRecordOf<String> {
    type V = LogRecordView;

    open spec fn view(&self) -> LogRecordView {
        LogRecordOf {
            message: self.message@,
            time: self.time,
            source: self.source@,
            level: self.level,
        }
    }
}

impl Clone for LogRecordOf<String> {
    fn clone(&self) -> (r: Self)
        ensures
            r@ == self@,
    {
        LogRecordOf {
            message: self.message.clone(),
            time: self.time,
            source: self.source.clone(),
            level: self.level,
        }
    }
}

impl Default for LogRecordOf<String> {
    fn default() -> (r: Self)
        ensures
            r@ == Self::blank(),
    {
        Self::new_blank()
    }
}

impl Message for LogRecordOf<String> {
    open spec fn blank() -> LogRecordView {
        LogRecordOf {
            message: Seq::empty(),
            time: 0,
            source: Seq::empty(),
            level: 0,
        }
    }

    open spec fn merged(m: LogRecordView, f: FieldView, room: nat) -> Option<LogRecordView> {
        match (f.tag, f.value) {
            (1, WireValueOf::Bytes(b)) => match text::utf8_decoded(b) {
                Some(s) => Some(LogRecordOf { message: s, ..m }),
                None => None,
            },
            (2, WireValueOf::Fixed32(v)) => Some(LogRecordOf { time: v, ..m }),
            (3, WireValueOf::Bytes(b)) => match text::utf8_decoded(b) {
                Some(s) => Some(LogRecordOf { source: s, ..m }),
                None => None,
            },
            (4, WireValueOf::Varint(v)) => Some(LogRecordOf { level: message::as_int32(v), ..m }),
            _ if 1 <= f.tag <= 4 => None,
            _ => Some(m),
        }
    }

    open spec fn fields(m: LogRecordView) -> Seq<FieldView> {
        let fs = message::with_bytes(Seq::empty(), 1, text::utf8(m.message));
        let fs = message::with_fixed32(fs, 2, m.time);
        let fs = message::with_bytes(fs, 3, text::utf8(m.source));
        message::with_varint(fs, 4, message::int32_bits(m.level))
    }

    fn new_blank() -> (m: Self) {
        LogRecordOf {
            message: String::new(),
            time: 0,
            source: String::new(),
            level: 0,
        }
    }

    fn merge_field(&mut self, f: Field, room: u32) -> (ok: bool) {
        match (f.tag, f.value) {
            (1, WireValueOf::Bytes(b)) => match text::from_utf8(b) {
                Some(s) => self.message = s,
                None => return false,
            },
            (2, WireValueOf::Fixed32(v)) => self.time = v,
            (3, WireValueOf::Bytes(b)) => match text::from_utf8(b) {
                Some(s) => self.source = s,
                None => return false,
            },
            (4, WireValueOf::Varint(v)) => self.level = to_int32(v),
            _ => return !(1 <= f.tag && f.tag <= 4),
        }
        true
    }

    fn encode_to_vec(&self) -> (bytes: Vec<u8>) {
        let mut w = FieldWriter::new();
        w.bytes(1, self.message.as_str().as_bytes());
        w.fixed32(2, self.time);
        w.bytes(3, self.source.as_str().as_bytes());
        w.varint(4, int32_to_bits(self.level));
        w.finish()
    }
}

impl RoundTrip for LogRecordOf<String> {
    open spec fn canonical(m: LogRecordView) -> bool {
        true
    }

    open spec fn settled(m: LogRecordView) -> LogRecordView {
        m
    }

    proof fn lemma_fields(m: LogRecordView) {
        message::lemma_reads_start::<Self>();
        let m0 = Self::blank();
        let fs0 = Seq::<FieldView>::empty();
        let m1 = LogRecordOf { message: m.message, ..m0 };
        let fs1 = message::with_bytes(fs0, 1, text::utf8(m.message));
        text::lemma_utf8(m.message);
        message::lemma_reads_bytes::<Self>(fs0, m0, 1, text::utf8(m.message), m1);
        let m2 = LogRecordOf { time: m.time, ..m1 };
        let fs2 = message::with_fixed32(fs1, 2, m.time);
        message::lemma_reads_fixed32::<Self>(fs1, m1, 2, m.time, m2);
        let m3 = LogRecordOf { source: m.source, ..m2 };
        let fs3 = message::with_bytes(fs2, 3, text::utf8(m.source));
        text::lemma_utf8(m.source);
        message::lemma_reads_bytes::<Self>(fs2, m2, 3, text::utf8(m.source), m3);
        let fs4 = message::with_varint(fs3, 4, message::int32_bits(m.level));
        message::lemma_int32(m.level);
        message::lemma_reads_varint::<Self>(fs3, m3, 4, message::int32_bits(m.level), m);
    }

    proof fn lemma_settled(m: LogRecordView) {
    }

    proof fn lemma_blank() {
    }

    proof fn lemma_merged(m: LogRecordView, f: FieldView, room: nat) {
    }
}

/// A sign of life from the phone.
#[verifier::ext_equal]
#[derive(Debug, PartialEq)]
pub struct Heartbeat {
    pub nonce: u32,
}

impl View for Heartbeat {
    type V = Heartbeat;

    open spec fn view(&self) -> Heartbeat {
        *self
    }
}

impl Clone for Heartbeat {
    fn clone(&self) -> (r: Self)
        ensures
            r@ == self@,
    {
        Heartbeat {
            nonce: self.nonce,
        }
    }
}

impl Default for Heartbeat {
    fn default() -> (r: Self)
        ensures
            r@ == Self::blank(),
    {
        Self::new_blank()
    }
}

impl Message for Heartbeat {
    open spec fn blank() -> Heartbeat {
        Heartbeat {
            nonce: 0,
        }
    }

    open spec fn merged(m: Heartbeat, f: FieldView, room: nat) -> Option<Heartbeat> {
        match (f.tag, f.value) {
            (1, WireValueOf::Varint(v)) => Some(Heartbeat { nonce: message::as_uint32(v), ..m }),
            _ if f.tag == 1 => None,
            _ => Some(m),
        }
    }

    open spec fn fields(m: Heartbeat) -> Seq<FieldView> {
        message::with_varint(Seq::empty(), 1, m.nonce as u64)
    }

    fn new_blank() -> (m: Self) {
        Heartbeat {
            nonce: 0,
        }
    }

    fn merge_field(&mut self, f: Field, room: u32) -> (ok: bool) {
        match (f.tag, f.value) {
            (1, WireValueOf::Varint(v)) => self.nonce = to_uint32(v),
            _ => return !(f.tag == 1),
        }
        true
    }

    fn encode_to_vec(&self) -> (bytes: Vec<u8>) {
        let mut w = FieldWriter::new();
        w.varint(1, self.nonce as u64);
        w.finish()
    }
}

impl RoundTrip for Heartbeat {
    open spec fn canonical(m: Heartbeat) -> bool {
        true
    }

    open spec fn settled(m: Heartbeat) -> Heartbeat {
        m
    }

    proof fn lemma_fields(m: Heartbeat) {
        message::lemma_reads_start::<Self>();
        let m0 = Self::blank();
        let fs0 = Seq::<FieldView>::empty();
        let fs1 = message::with_varint(fs0, 1, m.nonce as u64);
        message::lemma_reads_varint::<Self>(fs0, m0, 1, m.nonce as u64, m);
    }

    proof fn lemma_settled(m: Heartbeat) {
    }

    proof fn lemma_blank() {
    }

    proof fn lemma_merged(m: Heartbeat, f: FieldView, room: nat) {
    }
}

/// A piece of a file transfer.
#[verifier::ext_equal]
#[derive(Debug, PartialEq)]
pub struct XModemOf<B> {
    pub control: i32,
    pub seq: u32,
    pub crc16: u32,
    pub buffer: B,
}

pub type XModem = XModemOf<Vec<u8>>;

pub type XModemView = XModemOf<Seq<u8>>;

impl View for XModemOf<Vec<u8>> {
    type V = XModemView;

    open spec fn view(&self) -> XModemView {
        XModemOf {
            control: self.control,
            seq: self.seq,
            crc16: self.crc16,
            buffer: self.buffer@,
        }
    }
}

impl Clone for XModemOf<Vec<u8>> {
    fn clone(&self) -> (r: Self)
        ensures
            r@ == self@,
    {
        XModemOf {
            control: self.control,
            seq: self.seq,
            crc16: self.crc16,
            buffer: self.buffer.clone(),
        }
    }
}

impl Default for XModemOf<Vec<u8>> {
    fn default() -> (r: Self)
        ensures
            r@ == Self::blank(),
    {
        Self::new_blank()
    }
}

impl Message for XModemOf<Vec<u8>> {
    open spec fn blank() -> XModemView {
        XModemOf {
            control: 0,
            seq: 0,
            crc16: 0,
            buffer: Seq::empty(),
        }
    }

    open spec fn merged(m: XModemView, f: FieldView, room: nat) -> Option<XModemView> {
        match (f.tag, f.value) {
            (1, WireValueOf::Varint(v)) => Some(XModemOf { control: message::as_int32(v), ..m }),
            (2, WireValueOf::Varint(v)) => Some(XModemOf { seq: message::as_uint32(v), ..m }),
            (3, WireValueOf::Varint(v)) => Some(XModemOf { crc16: message::as_uint32(v), ..m }),
            (4, WireValueOf::Bytes(b)) => Some(XModemOf { buffer: b, ..m }),
            _ if 1 <= f.tag <= 4 => None,
            _ => Some(m),
        }
    }

    open spec fn fields(m: XModemView) -> Seq<FieldView> {
        let fs = message::with_varint(Seq::empty(), 1, message::int32_bits(m.control));
        let fs = message::with_varint(fs, 2, m.seq as u64);
        let fs = message::with_varint(fs, 3, m.crc16 as u64);
        message::with_bytes(fs, 4, m.buffer)
    }

    fn new_blank() -> (m: Self) {
        XModemOf {
            control: 0,
            seq: 0,
            crc16: 0,
            buffer: Vec::new(),
        }
    }

    fn merge_field(&mut self, f: Field, room: u32) -> (ok: bool) {
        match (f.tag, f.value) {
            (1, WireValueOf::Varint(v)) => self.control = to_int32(v),
            (2, WireValueOf::Varint(v)) => self.seq = to_uint32(v),
            (3, WireValueOf::Varint(v)) => self.crc16 = to_uint32(v),
            (4, WireValueOf::Bytes(b)) => self.buffer = b,
            _ => return !(1 <= f.tag && f.tag <= 4),
        }
        true
    }

    fn encode_to_vec(&self) -> (bytes: Vec<u8>) {
        let mut w = FieldWriter::new();
        w.varint(1, int32_to_bits(self.control));
        w.varint(2, self.seq as u64);
        w.varint(3, self.crc16 as u64);
        w.bytes(4, &self.buffer);
        w.finish()
    }
}

impl RoundTrip for XModemOf<Vec<u8>> {
    open spec fn canonical(m: XModemView) -> bool {
        true
    }

    open spec fn settled(m: XModemView) -> XModemView {
        m
    }

    proof fn lemma_fields(m: XModemView) {
        message::lemma_reads_start::<Self>();
        let m0 = Self::blank();
        let fs0 = Seq::<FieldView>::empty();
        let m1 = XModemOf { control: m.control, ..m0 };
        let fs1 = message::with_varint(fs0, 1, message::int32_bits(m.control));
        message::lemma_int32(m.control);
        message::lemma_reads_varint::<Self>(fs0, m0, 1, message::int32_bits(m.control), m1);
        let m2 = XModemOf { seq: m.seq, ..m1 };
        let fs2 = message::with_varint(fs1, 2, m.seq as u64);
        message::lemma_reads_varint::<Self>(fs1, m1, 2, m.seq as u64, m2);
        let m3 = XModemOf { crc16: m.crc16, ..m2 };
        let fs3 = message::with_varint(fs2, 3, m.crc16 as u64);
        message::lemma_reads_varint::<Self>(fs2, m2, 3, m.crc16 as u64, m3);
        let fs4 = message::with_bytes(fs3, 4, m.buffer);
        assert(m.buffer.len() == 0 ==> m.buffer =~= Seq::empty());
        message::lemma_reads_bytes::<Self>(fs3, m3, 4, m.buffer, m);
    }

    proof fn lemma_settled(m: XModemView) {
    }

    proof fn lemma_blank() {
    }

    proof fn lemma_merged(m: XModemView, f: FieldView, room: nat) {
    }
}

/// The payload of a proxied message.
#[verifier::ext_equal]
#[derive(Debug, PartialEq)]
pub enum MqttPayloadOf<B, S> {
    Data(B),
    Text(S),
}

pub type MqttPayload = MqttPayloadOf<Vec<u8>, String>;

pub type MqttPayloadView = MqttPayloadOf<Seq<u8>, Seq<char>>;

impl View for MqttPayloadOf<Vec<u8>, String> {
    type V = MqttPayloadView;

    open spec fn view(&self) -> MqttPayloadView {
        match self {
            MqttPayloadOf::Data(x) => MqttPayloadOf::Data(x@),
            MqttPayloadOf::Text(x) => MqttPayloadOf::Text(x@),
        }
    }
}

impl Clone for MqttPayloadOf<Vec<u8>, String> {
    fn clone(&self) -> (r: Self)
        ensures
            r@ == self@,
    {
        match self {
            MqttPayloadOf::Data(x) => MqttPayloadOf::Data(x.clone()),
            MqttPayloadOf::Text(x) => MqttPayloadOf::Text(x.clone()),
        }
    }
}

/// A message that the phone passes on between the device and an MQTT server.
#[verifier::ext_equal]
#[derive(Debug, PartialEq)]
pub struct MqttClientProxyMessageOf<B, S> {
    pub topic: S,
    pub payload_variant: Option<MqttPayloadOf<B, S>>,
    pub retained: bool,
}

pub type MqttClientProxyMessage = MqttClientProxyMessageOf<Vec<u8>, String>;

pub type MqttClientProxyMessageView = MqttClientProxyMessageOf<Seq<u8>, Seq<char>>;

impl View for MqttClientProxyMessageOf<Vec<u8>, String> {
    type V = MqttClientProxyMessageView;

    open spec fn view(&self) -> MqttClientProxyMessageView {
        MqttClientProxyMessageOf {
            topic: self.topic@,
            payload_variant: message::opt_view(self.payload_variant),
            retained: self.retained,
        }
    }
}

impl Clone for MqttClientProxyMessageOf<Vec<u8>, String> {
    fn clone(&self) -> (r: Self)
        ensures
            r@ == self@,
    {
        MqttClientProxyMessageOf {
            topic: self.topic.clone(),
            payload_variant: match &self.payload_variant {
                Some(x) => Some(x.clone()),
                None => None,
            },
            retained: self.retained,
        }
    }
}

impl Default for MqttClientProxyMessageOf<Vec<u8>, String> {
    fn default() -> (r: Self)
        ensures
            r@ == Self::blank(),
    {
        Self::new_blank()
    }
}

impl Message for MqttClientProxyMessageOf<Vec<u8>, String> {
    open spec fn blank() -> MqttClientProxyMessageView {
        MqttClientProxyMessageOf {
            topic: Seq::empty(),
            payload_variant: None,
            retained: false,
        }
    }

    open spec fn merged(m: MqttClientProxyMessageView, f: FieldView, room: nat) -> Option<
        MqttClientProxyMessageView,
    > {
        match (f.tag, f.value) {
            (1, WireValueOf::Bytes(b)) => match text::utf8_decoded(b) {
                Some(s) => Some(MqttClientProxyMessageOf { topic: s, ..m }),
                None => None,
            },
            (2, WireValueOf::Bytes(b)) => Some(
                MqttClientProxyMessageOf { payload_variant: Some(MqttPayloadOf::Data(b)), ..m },
            ),
            (3, WireValueOf::Bytes(b)) => match text::utf8_decoded(b) {
                Some(s) => Some(
                    MqttClientProxyMessageOf { payload_variant: Some(MqttPayloadOf::Text(s)), ..m },
                ),
                None => None,
            },
            (4, WireValueOf::Varint(v)) => Some(MqttClientProxyMessageOf { retained: v != 0, ..m }),
            _ if 1 <= f.tag <= 4 => None,
            _ => Some(m),
        }
    }

    open spec fn fields(m: MqttClientProxyMessageView) -> Seq<FieldView> {
        let fs = message::with_bytes(Seq::empty(), 1, text::utf8(m.topic));
        let fs = message::with_opt_field(fs, match m.payload_variant {
            Some(x) => Some(mqtt_payload_field(x)),
            None => None,
        });
        message::with_bool(fs, 4, m.retained)
    }

    fn new_blank() -> (m: Self) {
        MqttClientProxyMessageOf {
            topic: String::new(),
            payload_variant: None,
            retained: false,
        }
    }

    fn merge_field(&mut self, f: Field, room: u32) -> (ok: bool) {
        match (f.tag, f.value) {
            (1, WireValueOf::Bytes(b)) => match text::from_utf8(b) {
                Some(s) => self.topic = s,
                None => return false,
            },
            (2, WireValueOf::Bytes(b)) => self.payload_variant = Some(MqttPayloadOf::Data(b)),
            (3, WireValueOf::Bytes(b)) => match text::from_utf8(b) {
                Some(s) => self.payload_variant = Some(MqttPayloadOf::Text(s)),
                None => return false,
            },
            (4, WireValueOf::Varint(v)) => self.retained = v != 0,
            _ => return !(1 <= f.tag && f.tag <= 4),
        }
        true
    }

    fn encode_to_vec(&self) -> (bytes: Vec<u8>) {
        let mut w = FieldWriter::new();
        w.bytes(1, self.topic.as_str().as_bytes());
        proof {
            reveal(message::with_opt_field);
            reveal(mqtt_payload_field);
        }
        match &self.payload_variant {
            Some(MqttPayloadOf::Data(x)) => w.put_bytes(2, x),
            Some(MqttPayloadOf::Text(x)) => w.put_bytes(3, x.as_str().as_bytes()),
            None => {},
        }
        w.boolean(4, self.retained);
        w.finish()
    }
}

/// The field that a variant is written as.
#[verifier::opaque]
pub open spec fn mqtt_payload_field(x: MqttPayloadView) -> FieldView {
    match x {
        MqttPayloadOf::Data(x) => message::bytes_field(2, x),
        MqttPayloadOf::Text(x) => message::bytes_field(3, text::utf8(x)),
    }
}

/// Whether a variant reads back as it was written.
#[verifier::opaque]
pub open spec fn mqtt_payload_canonical(x: MqttPayloadView) -> bool {
    match x {
        _ => true,
    }
}

proof fn lemma_mqtt_payload(m: MqttClientProxyMessageView, x: MqttPayloadView)
    requires
        m.payload_variant is None,
        mqtt_payload_canonical(x),
    ensures
        wire::plain(mqtt_payload_field(x)),
        wire::small(mqtt_payload_field(x)) ==> forall|room: nat| #[trigger]
            MqttClientProxyMessage::merged(m, mqtt_payload_field(x), room) == Some(
                MqttClientProxyMessageOf { payload_variant: Some(x), ..m },
            ),
{
    reveal(mqtt_payload_field);
    reveal(mqtt_payload_canonical);
    match x {
        MqttPayloadOf::Text(x) => text::lemma_utf8(x),
        _ => {},
    }
}

impl RoundTrip for MqttClientProxyMessageOf<Vec<u8>, String> {
    open spec fn canonical(m: MqttClientProxyMessageView) -> bool {
        m.payload_variant matches Some(x) ==> mqtt_payload_canonical(x)
    }

    open spec fn settled(m: MqttClientProxyMessageView) -> MqttClientProxyMessageView {
        m
    }

    proof fn lemma_fields(m: MqttClientProxyMessageView) {
        message::lemma_reads_start::<Self>();
        let m0 = Self::blank();
        let fs0 = Seq::<FieldView>::empty();
        let m1 = MqttClientProxyMessageOf { topic: m.topic, ..m0 };
        let fs1 = message::with_bytes(fs0, 1, text::utf8(m.topic));
        text::lemma_utf8(m.topic);
        message::lemma_reads_bytes::<Self>(fs0, m0, 1, text::utf8(m.topic), m1);
        let m2 = MqttClientProxyMessageOf { payload_variant: m.payload_variant, ..m1 };
        let fs2 = message::with_opt_field(fs1, match m.payload_variant {
            Some(x) => Some(mqtt_payload_field(x)),
            None => None,
        });
        if let Some(x) = m.payload_variant {
            lemma_mqtt_payload(m1, x);
        }
        message::lemma_reads_opt_field::<Self>(
            fs1,
            m1,
            match m.payload_variant {
                Some(x) => Some(mqtt_payload_field(x)),
                None => None,
            },
            m2,
        );
        let fs3 = message::with_bool(fs2, 4, m.retained);
        message::lemma_reads_bool::<Self>(fs2, m2, 4, m.retained, m);
    }

    proof fn lemma_settled(m: MqttClientProxyMessageView) {
    }

    proof fn lemma_blank() {
    }

    proof fn lemma_merged(m: MqttClientProxyMessageView, f: FieldView, room: nat) {
        reveal(mqtt_payload_canonical);
    }
}

/// What a frame from the phone asks for.
#[verifier::ext_equal]
#[derive(Debug, PartialEq)]
pub enum ToRadioVariantOf<B, S> {
    Packet(MeshPacketOf<B>),
    WantConfigId(u32),
    Disconnect(bool),
    XmodemPacket(XModemOf<B>),
    MqttClientProxyMessage(MqttClientProxyMessageOf<B, S>),
    Heartbeat(Heartbeat),
}

pub type ToRadioVariant = ToRadioVariantOf<Vec<u8>, String>;

pub type ToRadioVariantView = ToRadioVariantOf<Seq<u8>, Seq<char>>;

impl View for ToRadioVariantOf<Vec<u8>, String> {
    type V = ToRadioVariantView;

    open spec fn view(&self) -> ToRadioVariantView {
        match self {
            ToRadioVariantOf::Packet(x) => ToRadioVariantOf::Packet(x@),
            ToRadioVariantOf::WantConfigId(x) => ToRadioVariantOf::WantConfigId(*x),
            ToRadioVariantOf::Disconnect(x) => ToRadioVariantOf::Disconnect(*x),
            ToRadioVariantOf::XmodemPacket(x) => ToRadioVariantOf::XmodemPacket(x@),
            ToRadioVariantOf::MqttClientProxyMessage(x) => ToRadioVariantOf::MqttClientProxyMessage(
                x@,
            ),
            ToRadioVariantOf::Heartbeat(x) => ToRadioVariantOf::Heartbeat(x@),
        }
    }
}

impl Clone for ToRadioVariantOf<Vec<u8>, String> {
    fn clone(&self) -> (r: Self)
        ensures
            r@ == self@,
    {
        match self {
            ToRadioVariantOf::Packet(x) => ToRadioVariantOf::Packet(x.clone()),
            ToRadioVariantOf::WantConfigId(x) => ToRadioVariantOf::WantConfigId(*x),
            ToRadioVariantOf::Disconnect(x) => ToRadioVariantOf::Disconnect(*x),
            ToRadioVariantOf::XmodemPacket(x) => ToRadioVariantOf::XmodemPacket(x.clone()),
            ToRadioVariantOf::MqttClientProxyMessage(x) => ToRadioVariantOf::MqttClientProxyMessage(
                x.clone(),
            ),
            ToRadioVariantOf::Heartbeat(x) => ToRadioVariantOf::Heartbeat(x.clone()),
        }
    }
}

/// A frame from the phone.
#[verifier::ext_equal]
#[derive(Debug, PartialEq)]
pub struct ToRadioOf<B, S> {
    pub payload_variant: Option<ToRadioVariantOf<B, S>>,
}

pub type ToRadio = ToRadioOf<Vec<u8>, String>;

pub type ToRadioView = ToRadioOf<Seq<u8>, Seq<char>>;

impl View for ToRadioOf<Vec<u8>, String> {
    type V = ToRadioView;

    open spec fn view(&self) -> ToRadioView {
        ToRadioOf {
            payload_variant: message::opt_view(self.payload_variant),
        }
    }
}

impl Clone for ToRadioOf<Vec<u8>, String> {
    fn clone(&self) -> (r: Self)
        ensures
            r@ == self@,
    {
        ToRadioOf {
            payload_variant: match &self.payload_variant {
                Some(x) => Some(x.clone()),
                None => None,
            },
        }
    }
}

impl Default for ToRadioOf<Vec<u8>, String> {
    fn default() -> (r: Self)
        ensures
            r@ == Self::blank(),
    {
        Self::new_blank()
    }
}

impl Message for ToRadioOf<Vec<u8>, String> {
    open spec fn blank() -> ToRadioView {
        ToRadioOf {
            payload_variant: None,
        }
    }

    open spec fn merged(m: ToRadioView, f: FieldView, room: nat) -> Option<ToRadioView> {
        match (f.tag, f.value) {
            (1, WireValueOf::Bytes(b)) => {
                let old = match m.payload_variant {
                    Some(ToRadioVariantOf::Packet(x)) => x,
                    _ => MeshPacket::blank(),
                };
                match message::merged_bytes::<MeshPacket>(old, b, message::inner(room)) {
                    Some(x) => Some(
                        ToRadioOf { payload_variant: Some(ToRadioVariantOf::Packet(x)), ..m },
                    ),
                    None => None,
                }
            },
            (3, WireValueOf::Varint(v)) => Some(
                ToRadioOf {
                    payload_variant: Some(ToRadioVariantOf::WantConfigId(message::as_uint32(v))),
                    ..m
                },
            ),
            (4, WireValueOf::Varint(v)) => Some(
                ToRadioOf { payload_variant: Some(ToRadioVariantOf::Disconnect(v != 0)), ..m },
            ),
            (5, WireValueOf::Bytes(b)) => {
                let old = match m.payload_variant {
                    Some(ToRadioVariantOf::XmodemPacket(x)) => x,
                    _ => XModem::blank(),
                };
                match message::merged_bytes::<XModem>(old, b, message::inner(room)) {
                    Some(x) => Some(
                        ToRadioOf { payload_variant: Some(ToRadioVariantOf::XmodemPacket(x)), ..m },
                    ),
                    None => None,
                }
            },
            (6, WireValueOf::Bytes(b)) => {
                let old = match m.payload_variant {
                    Some(ToRadioVariantOf::MqttClientProxyMessage(x)) => x,
                    _ => MqttClientProxyMessage::blank(),
                };
                match message::merged_bytes::<MqttClientProxyMessage>(
                    old,
                    b,
                    message::inner(room),
                ) {
                    Some(x) => Some(
                        ToRadioOf {
                            payload_variant: Some(ToRadioVariantOf::MqttClientProxyMessage(x)),
                            ..m
                        },
                    ),
                    None => None,
                }
            },
            (7, WireValueOf::Bytes(b)) => {
                let old = match m.payload_variant {
                    Some(ToRadioVariantOf::Heartbeat(x)) => x,
                    _ => Heartbeat::blank(),
                };
                match message::merged_bytes::<Heartbeat>(old, b, message::inner(room)) {
                    Some(x) => Some(
                        ToRadioOf { payload_variant: Some(ToRadioVariantOf::Heartbeat(x)), ..m },
                    ),
                    None => None,
                }
            },
            _ if f.tag == 1 || 3 <= f.tag <= 7 => None,
            _ => Some(m),
        }
    }

    open spec fn fields(m: ToRadioView) -> Seq<FieldView> {
        message::with_opt_field(Seq::empty(), match m.payload_variant {
            Some(x) => Some(to_radio_variant_field(x)),
            None => None,
        })
    }

    fn new_blank() -> (m: Self) {
        ToRadioOf {
            payload_variant: None,
        }
    }

    fn merge_field(&mut self, f: Field, room: u32) -> (ok: bool) {
        match (f.tag, f.value) {
            (1, WireValueOf::Bytes(b)) => {
                let mut x = match self.payload_variant.take() {
                    Some(ToRadioVariantOf::Packet(x)) => x,
                    _ => MeshPacket::new_blank(),
                };
                if merge_bytes(&mut x, &b, inner_room(room)).is_err() {
                    return false;
                }
                self.payload_variant = Some(ToRadioVariantOf::Packet(x));
            },
            (3, WireValueOf::Varint(v)) => self.payload_variant = Some(
                ToRadioVariantOf::WantConfigId(to_uint32(v)),
            ),
            (4, WireValueOf::Varint(v)) => self.payload_variant = Some(
                ToRadioVariantOf::Disconnect(v != 0),
            ),
            (5, WireValueOf::Bytes(b)) => {
                let mut x = match self.payload_variant.take() {
                    Some(ToRadioVariantOf::XmodemPacket(x)) => x,
                    _ => XModem::new_blank(),
                };
                if merge_bytes(&mut x, &b, inner_room(room)).is_err() {
                    return false;
                }
                self.payload_variant = Some(ToRadioVariantOf::XmodemPacket(x));
            },
            (6, WireValueOf::Bytes(b)) => {
                let mut x = match self.payload_variant.take() {
                    Some(ToRadioVariantOf::MqttClientProxyMessage(x)) => x,
                    _ => MqttClientProxyMessage::new_blank(),
                };
                if merge_bytes(&mut x, &b, inner_room(room)).is_err() {
                    return false;
                }
                self.payload_variant = Some(ToRadioVariantOf::MqttClientProxyMessage(x));
            },
            (7, WireValueOf::Bytes(b)) => {
                let mut x = match self.payload_variant.take() {
                    Some(ToRadioVariantOf::Heartbeat(x)) => x,
                    _ => Heartbeat::new_blank(),
                };
                if merge_bytes(&mut x, &b, inner_room(room)).is_err() {
                    return false;
                }
                self.payload_variant = Some(ToRadioVariantOf::Heartbeat(x));
            },
            _ => return !(f.tag == 1 || (3 <= f.tag && f.tag <= 7)),
        }
        true
    }

    fn encode_to_vec(&self) -> (bytes: Vec<u8>) {
        let mut w = FieldWriter::new();
        proof {
            reveal(message::with_opt_field);
            reveal(to_radio_variant_field);
        }
        match &self.payload_variant {
            Some(ToRadioVariantOf::Packet(x)) => w.put_message(1, x),
            Some(ToRadioVariantOf::WantConfigId(x)) => w.put_varint(3, *x as u64),
            Some(ToRadioVariantOf::Disconnect(x)) => w.put_varint(4, if *x { 1 } else { 0 }),
            Some(ToRadioVariantOf::XmodemPacket(x)) => w.put_message(5, x),
            Some(ToRadioVariantOf::MqttClientProxyMessage(x)) => w.put_message(6, x),
            Some(ToRadioVariantOf::Heartbeat(x)) => w.put_message(7, x),
            None => {},
        }
        w.finish()
    }
}

/// The field that a variant is written as.
#[verifier::opaque]
pub open spec fn to_radio_variant_field(x: ToRadioVariantView) -> FieldView {
    match x {
        ToRadioVariantOf::Packet(x) => message::bytes_field(1, message::encoded::<MeshPacket>(x)),
        ToRadioVariantOf::WantConfigId(x) => message::varint_field(3, x as u64),
        ToRadioVariantOf::Disconnect(x) => message::varint_field(4, if x { 1 } else { 0 }),
        ToRadioVariantOf::XmodemPacket(x) => message::bytes_field(5, message::encoded::<XModem>(x)),
        ToRadioVariantOf::MqttClientProxyMessage(x) => message::bytes_field(
            6,
            message::encoded::<MqttClientProxyMessage>(x),
        ),
        ToRadioVariantOf::Heartbeat(x) => message::bytes_field(7, message::encoded::<Heartbeat>(x)),
    }
}

/// Whether a variant reads back as it was written.
#[verifier::opaque]
pub open spec fn to_radio_variant_canonical(x: ToRadioVariantView) -> bool {
    match x {
        ToRadioVariantOf::Packet(x) => MeshPacket::canonical(x),
        ToRadioVariantOf::XmodemPacket(x) => XModem::canonical(x),
        ToRadioVariantOf::MqttClientProxyMessage(x) => MqttClientProxyMessage::canonical(x),
        ToRadioVariantOf::Heartbeat(x) => Heartbeat::canonical(x),
        _ => true,
    }
}

proof fn lemma_to_radio_variant(m: ToRadioView, x: ToRadioVariantView)
    requires
        m.payload_variant is None,
        to_radio_variant_canonical(x),
    ensures
        wire::plain(to_radio_variant_field(x)),
        wire::small(to_radio_variant_field(x)) ==> forall|room: nat| #[trigger]
            ToRadio::merged(m, to_radio_variant_field(x), room) == Some(
                ToRadioOf { payload_variant: Some(x), ..m },
            ),
{
    reveal(to_radio_variant_field);
    reveal(to_radio_variant_canonical);
    match x {
        ToRadioVariantOf::Packet(x) => message::lemma_embedded::<MeshPacket>(Some(x)),
        ToRadioVariantOf::XmodemPacket(x) => message::lemma_embedded::<XModem>(Some(x)),
        ToRadioVariantOf::MqttClientProxyMessage(x) => {
            message::lemma_embedded::<MqttClientProxyMessage>(Some(x));
        },
        ToRadioVariantOf::Heartbeat(x) => message::lemma_embedded::<Heartbeat>(Some(x)),
        _ => {},
    }
}

/// A variant as it reads back.
#[verifier::opaque]
pub open spec fn to_radio_variant_settled(x: ToRadioVariantView) -> ToRadioVariantView {
    match x {
        ToRadioVariantOf::Packet(x) => ToRadioVariantOf::Packet(MeshPacket::settled(x)),
        ToRadioVariantOf::XmodemPacket(x) => ToRadioVariantOf::XmodemPacket(XModem::settled(x)),
        ToRadioVariantOf::MqttClientProxyMessage(x) => ToRadioVariantOf::MqttClientProxyMessage(
            MqttClientProxyMessage::settled(x),
        ),
        ToRadioVariantOf::Heartbeat(x) => ToRadioVariantOf::Heartbeat(Heartbeat::settled(x)),
        _ => x,
    }
}

proof fn lemma_to_radio_variant_settled(x: ToRadioVariantView)
    ensures
        to_radio_variant_field(to_radio_variant_settled(x)) == to_radio_variant_field(x),
{
    reveal(to_radio_variant_field);
    reveal(to_radio_variant_settled);
    match x {
        ToRadioVariantOf::Packet(x) => MeshPacket::lemma_settled(x),
        ToRadioVariantOf::XmodemPacket(x) => XModem::lemma_settled(x),
        ToRadioVariantOf::MqttClientProxyMessage(x) => MqttClientProxyMessage::lemma_settled(x),
        ToRadioVariantOf::Heartbeat(x) => Heartbeat::lemma_settled(x),
        _ => {},
    }
}

impl RoundTrip for ToRadioOf<Vec<u8>, String> {
    open spec fn canonical(m: ToRadioView) -> bool {
        m.payload_variant matches Some(x) ==> to_radio_variant_canonical(x)
    }

    open spec fn settled(m: ToRadioView) -> ToRadioView {
        ToRadioOf {
            payload_variant: match m.payload_variant {
                Some(x) => Some(to_radio_variant_settled(x)),
                None => None,
            },
        }
    }

    proof fn lemma_fields(m: ToRadioView) {
        message::lemma_reads_start::<Self>();
        let m0 = Self::blank();
        let fs0 = Seq::<FieldView>::empty();
        let fs1 = message::with_opt_field(fs0, match m.payload_variant {
            Some(x) => Some(to_radio_variant_field(x)),
            None => None,
        });
        if let Some(x) = m.payload_variant {
            lemma_to_radio_variant(m0, x);
        }
        message::lemma_reads_opt_field::<Self>(
            fs0,
            m0,
            match m.payload_variant {
                Some(x) => Some(to_radio_variant_field(x)),
                None => None,
            },
            m,
        );
    }

    proof fn lemma_settled(m: ToRadioView) {
        if let Some(x) = m.payload_variant {
            lemma_to_radio_variant_settled(x);
        }
    }

    proof fn lemma_blank() {
    }

    proof fn lemma_merged(m: ToRadioView, f: FieldView, room: nat) {
        reveal(to_radio_variant_canonical);
        reveal(to_radio_variant_settled);
        match (f.tag, f.value) {
            (1, WireValueOf::Bytes(b)) => message::lemma_merged_message::<MeshPacket>(
                match m.payload_variant {
                    Some(ToRadioVariantOf::Packet(x)) => Some(x),
                    _ => None,
                },
                b,
                message::inner(room),
            ),
            (5, WireValueOf::Bytes(b)) => message::lemma_merged_message::<XModem>(
                match m.payload_variant {
                    Some(ToRadioVariantOf::XmodemPacket(x)) => Some(x),
                    _ => None,
                },
                b,
                message::inner(room),
            ),
            (6, WireValueOf::Bytes(b)) => message::lemma_merged_message::<MqttClientProxyMessage>(
                match m.payload_variant {
                    Some(ToRadioVariantOf::MqttClientProxyMessage(x)) => Some(x),
                    _ => None,
                },
                b,
                message::inner(room),
            ),
            (7, WireValueOf::Bytes(b)) => message::lemma_merged_message::<Heartbeat>(
                match m.payload_variant {
                    Some(ToRadioVariantOf::Heartbeat(x)) => Some(x),
                    _ => None,
                },
                b,
                message::inner(room),
            ),
            _ => {},
        }
    }
}

/// What a frame tells the phone.
#[verifier::ext_equal]
#[derive(Debug, PartialEq)]
pub enum FromRadioVariantOf<B, S> {
    Packet(MeshPacketOf<B>),
    MyInfo(MyNodeInfoOf<B, S>),
    NodeInfo(NodeInfoOf<B, S>),
    Config(ConfigOf<B, false>),
    LogRecord(LogRecordOf<S>),
    ConfigCompleteId(u32),
    Rebooted(bool),
    ModuleConfig(ConfigOf<B, true>),
    Channel(ChannelOf<B, S>),
    QueueStatus(QueueStatus),
    Metadata(DeviceMetadataOf<S>),
}

pub type FromRadioVariant = FromRadioVariantOf<Vec<u8>, String>;

pub type FromRadioVariantView = FromRadioVariantOf<Seq<u8>, Seq<char>>;

impl View for FromRadioVariantOf<Vec<u8>, String> {
    type V = FromRadioVariantView;

    open spec fn view(&self) -> FromRadioVariantView {
        match self {
            FromRadioVariantOf::Packet(x) => FromRadioVariantOf::Packet(x@),
            FromRadioVariantOf::MyInfo(x) => FromRadioVariantOf::MyInfo(x@),
            FromRadioVariantOf::NodeInfo(x) => FromRadioVariantOf::NodeInfo(x@),
            FromRadioVariantOf::Config(x) => FromRadioVariantOf::Config(x@),
            FromRadioVariantOf::LogRecord(x) => FromRadioVariantOf::LogRecord(x@),
            FromRadioVariantOf::ConfigCompleteId(x) => FromRadioVariantOf::ConfigCompleteId(*x),
            FromRadioVariantOf::Rebooted(x) => FromRadioVariantOf::Rebooted(*x),
            FromRadioVariantOf::ModuleConfig(x) => FromRadioVariantOf::ModuleConfig(x@),
            FromRadioVariantOf::Channel(x) => FromRadioVariantOf::Channel(x@),
            FromRadioVariantOf::QueueStatus(x) => FromRadioVariantOf::QueueStatus(x@),
            FromRadioVariantOf::Metadata(x) => FromRadioVariantOf::Metadata(x@),
        }
    }
}

impl Clone for FromRadioVariantOf<Vec<u8>, String> {
    fn clone(&self) -> (r: Self)
        ensures
            r@ == self@,
    {
        match self {
            FromRadioVariantOf::Packet(x) => FromRadioVariantOf::Packet(x.clone()),
            FromRadioVariantOf::MyInfo(x) => FromRadioVariantOf::MyInfo(x.clone()),
            FromRadioVariantOf::NodeInfo(x) => FromRadioVariantOf::NodeInfo(x.clone()),
            FromRadioVariantOf::Config(x) => FromRadioVariantOf::Config(x.clone()),
            FromRadioVariantOf::LogRecord(x) => FromRadioVariantOf::LogRecord(x.clone()),
            FromRadioVariantOf::ConfigCompleteId(x) => FromRadioVariantOf::ConfigCompleteId(*x),
            FromRadioVariantOf::Rebooted(x) => FromRadioVariantOf::Rebooted(*x),
            FromRadioVariantOf::ModuleConfig(x) => FromRadioVariantOf::ModuleConfig(x.clone()),
            FromRadioVariantOf::Channel(x) => FromRadioVariantOf::Channel(x.clone()),
            FromRadioVariantOf::QueueStatus(x) => FromRadioVariantOf::QueueStatus(x.clone()),
            FromRadioVariantOf::Metadata(x) => FromRadioVariantOf::Metadata(x.clone()),
        }
    }
}

/// A frame to the phone.
#[verifier::ext_equal]
#[derive(Debug, PartialEq)]
pub struct FromRadioOf<B, S> {
    pub id: u32,
    pub payload_variant: Option<FromRadioVariantOf<B, S>>,
}

pub type FromRadio = FromRadioOf<Vec<u8>, String>;

pub type FromRadioView = FromRadioOf<Seq<u8>, Seq<char>>;

impl View for FromRadioOf<Vec<u8>, String> {
    type V = FromRadioView;

    open spec fn view(&self) -> FromRadioView {
        FromRadioOf {
            id: self.id,
            payload_variant: message::opt_view(self.payload_variant),
        }
    }
}

impl Clone for FromRadioOf<Vec<u8>, String> {
    fn clone(&self) -> (r: Self)
        ensures
            r@ == self@,
    {
        FromRadioOf {
            id: self.id,
            payload_variant: match &self.payload_variant {
                Some(x) => Some(x.clone()),
                None => None,
            },
        }
    }
}

impl Default for FromRadioOf<Vec<u8>, String> {
    fn default() -> (r: Self)
        ensures
            r@ == Self::blank(),
    {
        Self::new_blank()
    }
}

impl Message for FromRadioOf<Vec<u8>, String> {
    open spec fn blank() -> FromRadioView {
        FromRadioOf {
            id: 0,
            payload_variant: None,
        }
    }

    open spec fn merged(m: FromRadioView, f: FieldView, room: nat) -> Option<FromRadioView> {
        match (f.tag, f.value) {
            (1, WireValueOf::Varint(v)) => Some(FromRadioOf { id: message::as_uint32(v), ..m }),
            (2, WireValueOf::Bytes(b)) => {
                let old = match m.payload_variant {
                    Some(FromRadioVariantOf::Packet(x)) => x,
                    _ => MeshPacket::blank(),
                };
                match message::merged_bytes::<MeshPacket>(old, b, message::inner(room)) {
                    Some(x) => Some(
                        FromRadioOf { payload_variant: Some(FromRadioVariantOf::Packet(x)), ..m },
                    ),
                    None => None,
                }
            },
            (3, WireValueOf::Bytes(b)) => {
                let old = match m.payload_variant {
                    Some(FromRadioVariantOf::MyInfo(x)) => x,
                    _ => MyNodeInfo::blank(),
                };
                match message::merged_bytes::<MyNodeInfo>(old, b, message::inner(room)) {
                    Some(x) => Some(
                        FromRadioOf { payload_variant: Some(FromRadioVariantOf::MyInfo(x)), ..m },
                    ),
                    None => None,
                }
            },
            (4, WireValueOf::Bytes(b)) => {
                let old = match m.payload_variant {
                    Some(FromRadioVariantOf::NodeInfo(x)) => x,
                    _ => NodeInfo::blank(),
                };
                match message::merged_bytes::<NodeInfo>(old, b, message::inner(room)) {
                    Some(x) => Some(
                        FromRadioOf { payload_variant: Some(FromRadioVariantOf::NodeInfo(x)), ..m },
                    ),
                    None => None,
                }
            },
            (5, WireValueOf::Bytes(b)) => {
                let old = match m.payload_variant {
                    Some(FromRadioVariantOf::Config(x)) => x,
                    _ => Config::blank(),
                };
                match message::merged_bytes::<Config>(old, b, message::inner(room)) {
                    Some(x) => Some(
                        FromRadioOf { payload_variant: Some(FromRadioVariantOf::Config(x)), ..m },
                    ),
                    None => None,
                }
            },
            (6, WireValueOf::Bytes(b)) => {
                let old = match m.payload_variant {
                    Some(FromRadioVariantOf::LogRecord(x)) => x,
                    _ => LogRecord::blank(),
                };
                match message::merged_bytes::<LogRecord>(old, b, message::inner(room)) {
                    Some(x) => Some(
                        FromRadioOf {
                            payload_variant: Some(FromRadioVariantOf::LogRecord(x)),
                            ..m
                        },
                    ),
                    None => None,
                }
            },
            (7, WireValueOf::Varint(v)) => Some(
                FromRadioOf {
                    payload_variant: Some(
                        FromRadioVariantOf::ConfigCompleteId(message::as_uint32(v)),
                    ),
                    ..m
                },
            ),
            (8, WireValueOf::Varint(v)) => Some(
                FromRadioOf { payload_variant: Some(FromRadioVariantOf::Rebooted(v != 0)), ..m },
            ),
            (9, WireValueOf::Bytes(b)) => {
                let old = match m.payload_variant {
                    Some(FromRadioVariantOf::ModuleConfig(x)) => x,
                    _ => ModuleConfig::blank(),
                };
                match message::merged_bytes::<ModuleConfig>(old, b, message::inner(room)) {
                    Some(x) => Some(
                        FromRadioOf {
                            payload_variant: Some(FromRadioVariantOf::ModuleConfig(x)),
                            ..m
                        },
                    ),
                    None => None,
                }
            },
            (10, WireValueOf::Bytes(b)) => {
                let old = match m.payload_variant {
                    Some(FromRadioVariantOf::Channel(x)) => x,
                    _ => Channel::blank(),
                };
                match message::merged_bytes::<Channel>(old, b, message::inner(room)) {
                    Some(x) => Some(
                        FromRadioOf { payload_variant: Some(FromRadioVariantOf::Channel(x)), ..m },
                    ),
                    None => None,
                }
            },
            (11, WireValueOf::Bytes(b)) => {
                let old = match m.payload_variant {
                    Some(FromRadioVariantOf::QueueStatus(x)) => x,
                    _ => QueueStatus::blank(),
                };
                match message::merged_bytes::<QueueStatus>(old, b, message::inner(room)) {
                    Some(x) => Some(
                        FromRadioOf {
                            payload_variant: Some(FromRadioVariantOf::QueueStatus(x)),
                            ..m
                        },
                    ),
                    None => None,
                }
            },
            (13, WireValueOf::Bytes(b)) => {
                let old = match m.payload_variant {
                    Some(FromRadioVariantOf::Metadata(x)) => x,
                    _ => DeviceMetadata::blank(),
                };
                match message::merged_bytes::<DeviceMetadata>(old, b, message::inner(room)) {
                    Some(x) => Some(
                        FromRadioOf { payload_variant: Some(FromRadioVariantOf::Metadata(x)), ..m },
                    ),
                    None => None,
                }
            },
            _ if 1 <= f.tag <= 11 || f.tag == 13 => None,
            _ => Some(m),
        }
    }

    open spec fn fields(m: FromRadioView) -> Seq<FieldView> {
        let fs = message::with_varint(Seq::empty(), 1, m.id as u64);
        message::with_opt_field(fs, match m.payload_variant {
            Some(x) => Some(from_radio_variant_field(x)),
            None => None,
        })
    }

    fn new_blank() -> (m: Self) {
        FromRadioOf {
            id: 0,
            payload_variant: None,
        }
    }

    fn merge_field(&mut self, f: Field, room: u32) -> (ok: bool) {
        match (f.tag, f.value) {
            (1, WireValueOf::Varint(v)) => self.id = to_uint32(v),
            (2, WireValueOf::Bytes(b)) => {
                let mut x = match self.payload_variant.take() {
                    Some(FromRadioVariantOf::Packet(x)) => x,
                    _ => MeshPacket::new_blank(),
                };
                if merge_bytes(&mut x, &b, inner_room(room)).is_err() {
                    return false;
                }
                self.payload_variant = Some(FromRadioVariantOf::Packet(x));
            },
            (3, WireValueOf::Bytes(b)) => {
                let mut x = match self.payload_variant.take() {
                    Some(FromRadioVariantOf::MyInfo(x)) => x,
                    _ => MyNodeInfo::new_blank(),
                };
                if merge_bytes(&mut x, &b, inner_room(room)).is_err() {
                    return false;
                }
                self.payload_variant = Some(FromRadioVariantOf::MyInfo(x));
            },
            (4, WireValueOf::Bytes(b)) => {
                let mut x = match self.payload_variant.take() {
                    Some(FromRadioVariantOf::NodeInfo(x)) => x,
                    _ => NodeInfo::new_blank(),
                };
                if merge_bytes(&mut x, &b, inner_room(room)).is_err() {
                    return false;
                }
                self.payload_variant = Some(FromRadioVariantOf::NodeInfo(x));
            },
            (5, WireValueOf::Bytes(b)) => {
                let mut x = match self.payload_variant.take() {
                    Some(FromRadioVariantOf::Config(x)) => x,
                    _ => Config::new_blank(),
                };
                if merge_bytes(&mut x, &b, inner_room(room)).is_err() {
                    return false;
                }
                self.payload_variant = Some(FromRadioVariantOf::Config(x));
            },
            (6, WireValueOf::Bytes(b)) => {
                let mut x = match self.payload_variant.take() {
                    Some(FromRadioVariantOf::LogRecord(x)) => x,
                    _ => LogRecord::new_blank(),
                };
                if merge_bytes(&mut x, &b, inner_room(room)).is_err() {
                    return false;
                }
                self.payload_variant = Some(FromRadioVariantOf::LogRecord(x));
            },
            (7, WireValueOf::Varint(v)) => self.payload_variant = Some(
                FromRadioVariantOf::ConfigCompleteId(to_uint32(v)),
            ),
            (8, WireValueOf::Varint(v)) => self.payload_variant = Some(
                FromRadioVariantOf::Rebooted(v != 0),
            ),
            (9, WireValueOf::Bytes(b)) => {
                let mut x = match self.payload_variant.take() {
                    Some(FromRadioVariantOf::ModuleConfig(x)) => x,
                    _ => ModuleConfig::new_blank(),
                };
                if merge_bytes(&mut x, &b, inner_room(room)).is_err() {
                    return false;
                }
                self.payload_variant = Some(FromRadioVariantOf::ModuleConfig(x));
            },
            (10, WireValueOf::Bytes(b)) => {
                let mut x = match self.payload_variant.take() {
                    Some(FromRadioVariantOf::Channel(x)) => x,
                    _ => Channel::new_blank(),
                };
                if merge_bytes(&mut x, &b, inner_room(room)).is_err() {
                    return false;
                }
                self.payload_variant = Some(FromRadioVariantOf::Channel(x));
            },
            (11, WireValueOf::Bytes(b)) => {
                let mut x = match self.payload_variant.take() {
                    Some(FromRadioVariantOf::QueueStatus(x)) => x,
                    _ => QueueStatus::new_blank(),
                };
                if merge_bytes(&mut x, &b, inner_room(room)).is_err() {
                    return false;
                }
                self.payload_variant = Some(FromRadioVariantOf::QueueStatus(x));
            },
            (13, WireValueOf::Bytes(b)) => {
                let mut x = match self.payload_variant.take() {
                    Some(FromRadioVariantOf::Metadata(x)) => x,
                    _ => DeviceMetadata::new_blank(),
                };
                if merge_bytes(&mut x, &b, inner_room(room)).is_err() {
                    return false;
                }
                self.payload_variant = Some(FromRadioVariantOf::Metadata(x));
            },
            _ => return !((1 <= f.tag && f.tag <= 11) || f.tag == 13),
        }
        true
    }

    fn encode_to_vec(&self) -> (bytes: Vec<u8>) {
        let mut w = FieldWriter::new();
        w.varint(1, self.id as u64);
        proof {
            reveal(message::with_opt_field);
            reveal(from_radio_variant_field);
        }
        match &self.payload_variant {
            Some(FromRadioVariantOf::Packet(x)) => w.put_message(2, x),
            Some(FromRadioVariantOf::MyInfo(x)) => w.put_message(3, x),
            Some(FromRadioVariantOf::NodeInfo(x)) => w.put_message(4, x),
            Some(FromRadioVariantOf::Config(x)) => w.put_message(5, x),
            Some(FromRadioVariantOf::LogRecord(x)) => w.put_message(6, x),
            Some(FromRadioVariantOf::ConfigCompleteId(x)) => w.put_varint(7, *x as u64),
            Some(FromRadioVariantOf::Rebooted(x)) => w.put_varint(8, if *x { 1 } else { 0 }),
            Some(FromRadioVariantOf::ModuleConfig(x)) => w.put_message(9, x),
            Some(FromRadioVariantOf::Channel(x)) => w.put_message(10, x),
            Some(FromRadioVariantOf::QueueStatus(x)) => w.put_message(11, x),
            Some(FromRadioVariantOf::Metadata(x)) => w.put_message(13, x),
            None => {},
        }
        w.finish()
    }
}

/// The field that a variant is written as.
#[verifier::opaque]
pub open spec fn from_radio_variant_field(x: FromRadioVariantView) -> FieldView {
    match x {
        FromRadioVariantOf::Packet(x) => message::bytes_field(2, message::encoded::<MeshPacket>(x)),
        FromRadioVariantOf::MyInfo(x) => message::bytes_field(3, message::encoded::<MyNodeInfo>(x)),
        FromRadioVariantOf::NodeInfo(x) => message::bytes_field(4, message::encoded::<NodeInfo>(x)),
        FromRadioVariantOf::Config(x) => message::bytes_field(5, message::encoded::<Config>(x)),
        FromRadioVariantOf::LogRecord(x) => message::bytes_field(
            6,
            message::encoded::<LogRecord>(x),
        ),
        FromRadioVariantOf::ConfigCompleteId(x) => message::varint_field(7, x as u64),
        FromRadioVariantOf::Rebooted(x) => message::varint_field(8, if x { 1 } else { 0 }),
        FromRadioVariantOf::ModuleConfig(x) => message::bytes_field(
            9,
            message::encoded::<ModuleConfig>(x),
        ),
        FromRadioVariantOf::Channel(x) => message::bytes_field(10, message::encoded::<Channel>(x)),
        FromRadioVariantOf::QueueStatus(x) => message::bytes_field(
            11,
            message::encoded::<QueueStatus>(x),
        ),
        FromRadioVariantOf::Metadata(x) => message::bytes_field(
            13,
            message::encoded::<DeviceMetadata>(x),
        ),
    }
}

/// Whether a variant reads back as it was written.
#[verifier::opaque]
pub open spec fn from_radio_variant_canonical(x: FromRadioVariantView) -> bool {
    match x {
        FromRadioVariantOf::Packet(x) => MeshPacket::canonical(x),
        FromRadioVariantOf::MyInfo(x) => MyNodeInfo::canonical(x),
        FromRadioVariantOf::NodeInfo(x) => NodeInfo::canonical(x),
        FromRadioVariantOf::Config(x) => Config::canonical(x),
        FromRadioVariantOf::LogRecord(x) => LogRecord::canonical(x),
        FromRadioVariantOf::ModuleConfig(x) => ModuleConfig::canonical(x),
        FromRadioVariantOf::Channel(x) => Channel::canonical(x),
        FromRadioVariantOf::QueueStatus(x) => QueueStatus::canonical(x),
        FromRadioVariantOf::Metadata(x) => DeviceMetadata::canonical(x),
        _ => true,
    }
}

proof fn lemma_from_radio_variant(m: FromRadioView, x: FromRadioVariantView)
    requires
        m.payload_variant is None,
        from_radio_variant_canonical(x),
    ensures
        wire::plain(from_radio_variant_field(x)),
        wire::small(from_radio_variant_field(x)) ==> forall|room: nat| #[trigger]
            FromRadio::merged(m, from_radio_variant_field(x), room) == Some(
                FromRadioOf { payload_variant: Some(x), ..m },
            ),
{
    reveal(from_radio_variant_field);
    reveal(from_radio_variant_canonical);
    match x {
        FromRadioVariantOf::Packet(x) => message::lemma_embedded::<MeshPacket>(Some(x)),
        FromRadioVariantOf::MyInfo(x) => message::lemma_embedded::<MyNodeInfo>(Some(x)),
        FromRadioVariantOf::NodeInfo(x) => message::lemma_embedded::<NodeInfo>(Some(x)),
        FromRadioVariantOf::Config(x) => message::lemma_embedded::<Config>(Some(x)),
        FromRadioVariantOf::LogRecord(x) => message::lemma_embedded::<LogRecord>(Some(x)),
        FromRadioVariantOf::ModuleConfig(x) => message::lemma_embedded::<ModuleConfig>(Some(x)),
        FromRadioVariantOf::Channel(x) => message::lemma_embedded::<Channel>(Some(x)),
        FromRadioVariantOf::QueueStatus(x) => message::lemma_embedded::<QueueStatus>(Some(x)),
        FromRadioVariantOf::Metadata(x) => message::lemma_embedded::<DeviceMetadata>(Some(x)),
        _ => {},
    }
}

/// A variant as it reads back.
#[verifier::opaque]
pub open spec fn from_radio_variant_settled(x: FromRadioVariantView) -> FromRadioVariantView {
    match x {
        FromRadioVariantOf::Packet(x) => FromRadioVariantOf::Packet(MeshPacket::settled(x)),
        FromRadioVariantOf::MyInfo(x) => FromRadioVariantOf::MyInfo(MyNodeInfo::settled(x)),
        FromRadioVariantOf::NodeInfo(x) => FromRadioVariantOf::NodeInfo(NodeInfo::settled(x)),
        FromRadioVariantOf::Config(x) => FromRadioVariantOf::Config(Config::settled(x)),
        FromRadioVariantOf::LogRecord(x) => FromRadioVariantOf::LogRecord(LogRecord::settled(x)),
        FromRadioVariantOf::ModuleConfig(x) => FromRadioVariantOf::ModuleConfig(
            ModuleConfig::settled(x),
        ),
        FromRadioVariantOf::Channel(x) => FromRadioVariantOf::Channel(Channel::settled(x)),
        FromRadioVariantOf::QueueStatus(x) => FromRadioVariantOf::QueueStatus(
            QueueStatus::settled(x),
        ),
        FromRadioVariantOf::Metadata(x) => FromRadioVariantOf::Metadata(DeviceMetadata::settled(x)),
        _ => x,
    }
}

proof fn lemma_from_radio_variant_settled(x: FromRadioVariantView)
    ensures
        from_radio_variant_field(from_radio_variant_settled(x)) == from_radio_variant_field(x),
{
    reveal(from_radio_variant_field);
    reveal(from_radio_variant_settled);
    match x {
        FromRadioVariantOf::Packet(x) => MeshPacket::lemma_settled(x),
        FromRadioVariantOf::MyInfo(x) => MyNodeInfo::lemma_settled(x),
        FromRadioVariantOf::NodeInfo(x) => NodeInfo::lemma_settled(x),
        FromRadioVariantOf::Config(x) => Config::lemma_settled(x),
        FromRadioVariantOf::LogRecord(x) => LogRecord::lemma_settled(x),
        FromRadioVariantOf::ModuleConfig(x) => ModuleConfig::lemma_settled(x),
        FromRadioVariantOf::Channel(x) => Channel::lemma_settled(x),
        FromRadioVariantOf::QueueStatus(x) => QueueStatus::lemma_settled(x),
        FromRadioVariantOf::Metadata(x) => DeviceMetadata::lemma_settled(x),
        _ => {},
    }
}

impl RoundTrip for FromRadioOf<Vec<u8>, String> {
    open spec fn canonical(m: FromRadioView) -> bool {
        m.payload_variant matches Some(x) ==> from_radio_variant_canonical(x)
    }

    open spec fn settled(m: FromRadioView) -> FromRadioView {
        FromRadioOf {
            payload_variant: match m.payload_variant {
                Some(x) => Some(from_radio_variant_settled(x)),
                None => None,
            },
            ..m
        }
    }

    proof fn lemma_fields(m: FromRadioView) {
        message::lemma_reads_start::<Self>();
        let m0 = Self::blank();
        let fs0 = Seq::<FieldView>::empty();
        let m1 = FromRadioOf { id: m.id, ..m0 };
        let fs1 = message::with_varint(fs0, 1, m.id as u64);
        message::lemma_reads_varint::<Self>(fs0, m0, 1, m.id as u64, m1);
        let fs2 = message::with_opt_field(fs1, match m.payload_variant {
            Some(x) => Some(from_radio_variant_field(x)),
            None => None,
        });
        if let Some(x) = m.payload_variant {
            lemma_from_radio_variant(m1, x);
        }
        message::lemma_reads_opt_field::<Self>(
            fs1,
            m1,
            match m.payload_variant {
                Some(x) => Some(from_radio_variant_field(x)),
                None => None,
            },
            m,
        );
    }

    proof fn lemma_settled(m: FromRadioView) {
        let fs0 = Seq::<FieldView>::empty();
        let fs1 = message::with_varint(fs0, 1, m.id as u64);
        if let Some(x) = m.payload_variant {
            lemma_from_radio_variant_settled(x);
        }
    }

    proof fn lemma_blank() {
    }

    proof fn lemma_merged(m: FromRadioView, f: FieldView, room: nat) {
        reveal(from_radio_variant_canonical);
        reveal(from_radio_variant_settled);
        match (f.tag, f.value) {
            (2, WireValueOf::Bytes(b)) => message::lemma_merged_message::<MeshPacket>(
                match m.payload_variant {
                    Some(FromRadioVariantOf::Packet(x)) => Some(x),
                    _ => None,
                },
                b,
                message::inner(room),
            ),
            (3, WireValueOf::Bytes(b)) => message::lemma_merged_message::<MyNodeInfo>(
                match m.payload_variant {
                    Some(FromRadioVariantOf::MyInfo(x)) => Some(x),
                    _ => None,
                },
                b,
                message::inner(room),
            ),
            (4, WireValueOf::Bytes(b)) => message::lemma_merged_message::<NodeInfo>(
                match m.payload_variant {
                    Some(FromRadioVariantOf::NodeInfo(x)) => Some(x),
                    _ => None,
                },
                b,
                message::inner(room),
            ),
            (5, WireValueOf::Bytes(b)) => message::lemma_merged_message::<Config>(
                match m.payload_variant {
                    Some(FromRadioVariantOf::Config(x)) => Some(x),
                    _ => None,
                },
                b,
                message::inner(room),
            ),
            (6, WireValueOf::Bytes(b)) => message::lemma_merged_message::<LogRecord>(
                match m.payload_variant {
                    Some(FromRadioVariantOf::LogRecord(x)) => Some(x),
                    _ => None,
                },
                b,
                message::inner(room),
            ),
            (9, WireValueOf::Bytes(b)) => message::lemma_merged_message::<ModuleConfig>(
                match m.payload_variant {
                    Some(FromRadioVariantOf::ModuleConfig(x)) => Some(x),
                    _ => None,
                },
                b,
                message::inner(room),
            ),
            (10, WireValueOf::Bytes(b)) => message::lemma_merged_message::<Channel>(
                match m.payload_variant {
                    Some(FromRadioVariantOf::Channel(x)) => Some(x),
                    _ => None,
                },
                b,
                message::inner(room),
            ),
            (11, WireValueOf::Bytes(b)) => message::lemma_merged_message::<QueueStatus>(
                match m.payload_variant {
                    Some(FromRadioVariantOf::QueueStatus(x)) => Some(x),
                    _ => None,
                },
                b,
                message::inner(room),
            ),
            (13, WireValueOf::Bytes(b)) => message::lemma_merged_message::<DeviceMetadata>(
                match m.payload_variant {
                    Some(FromRadioVariantOf::Metadata(x)) => Some(x),
                    _ => None,
                },
                b,
                message::inner(room),
            ),
            _ => {},
        }
    }
}

} // verus!
