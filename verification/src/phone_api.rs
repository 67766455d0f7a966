//! The state machine behind the link to the phone.
//!
//! The phone starts a handshake by asking for the configuration with a nonce.
//! It then receives, frame by frame, what this node and the device are, the
//! channels, the sections of the configuration and of the module configuration,
//! the known nodes and finally its own nonce. After that it receives queue
//! states, log records and packets as they come.

use crate::message::{self, decode, Message, RoundTrip};
use crate::proto::channel::{Channel, ChannelView};
use crate::proto::config::{ConfigOf, Section, SectionView};
use crate::proto::node::{
    DeviceMetadata, DeviceMetadataView, MyNodeInfo, MyNodeInfoView, NodeInfo, NodeInfoView,
};
use crate::proto::packet::{MeshPacket, MeshPacketView};
use crate::proto::phone::{
    FromRadio, FromRadioOf, FromRadioVariant, FromRadioVariantOf, FromRadioVariantView, LogRecord,
    LogRecordView, QueueStatus, ToRadio, ToRadioVariantOf, ToRadioView,
};
use crate::text;
use crate::wire::{self, decode_error_text};
use std::collections::VecDeque;
use vstd::prelude::*;
use vstd::string::StringExecFns;

verus! {

/// The most bytes that a frame may have.
pub const MAX_TO_FROM_RADIO_SIZE: usize = 512;

/// The number of packet ids from the phone that are remembered.
pub const RECENT_TO_RADIO_DEDUP: usize = 20;

/// Why a frame was refused.
#[derive(Debug, PartialEq)]
pub enum PhoneApiError {
    /// The frame does not decode.
    Decode(prost::DecodeError),
    /// The frame from the phone has more than [`MAX_TO_FROM_RADIO_SIZE`] bytes.
    FrameTooLarge { size: usize },
    /// The frame to the phone would have more than [`MAX_TO_FROM_RADIO_SIZE`]
    /// bytes.
    EncodedTooLarge { size: usize },
}

impl Clone for PhoneApiError {
    fn clone(&self) -> (r: Self)
        ensures
            r == *self,
    {
        match self {
            PhoneApiError::Decode(e) => PhoneApiError::Decode(e.clone()),
            PhoneApiError::FrameTooLarge { size } => PhoneApiError::FrameTooLarge { size: *size },
            PhoneApiError::EncodedTooLarge { size } => PhoneApiError::EncodedTooLarge {
                size: *size,
            },
        }
    }
}

impl PhoneApiError {
    /// The error in words.
    pub open spec fn text(self) -> Seq<char> {
        match self {
            PhoneApiError::Decode(e) => "ToRadio decode failed: "@ + wire::decode_error_words(e),
            PhoneApiError::FrameTooLarge { size } => "ToRadio frame too large: "@ + text::decimal(
                size as nat,
            ) + " > 512"@,
            PhoneApiError::EncodedTooLarge { size } => "FromRadio encode too large: "@
                + text::decimal(size as nat) + " > 512"@,
        }
    }

    /// The error in words.
    pub fn describe(&self) -> (r: String)
        ensures
            r@ == self.text(),
    {
        match self {
            PhoneApiError::Decode(e) => {
                let mut r = String::from_str("ToRadio decode failed: ");
                let cause = decode_error_text(e);
                r.append(cause.as_str());
                r
            },
            PhoneApiError::FrameTooLarge { size } => text::number_between(
                "ToRadio frame too large: ",
                *size as u64,
                " > 512",
            ),
            PhoneApiError::EncodedTooLarge { size } => text::number_between(
                "FromRadio encode too large: ",
                *size as u64,
                " > 512",
            ),
        }
    }
}

/// What a frame from the phone asks of the rest of the node, over the type `P`
/// of packets.
#[verifier::ext_equal]
#[derive(Debug, PartialEq)]
pub struct ToRadioOutcomeOf<P> {
    /// The packet to send.
    pub packet_to_send: Option<P>,
    /// The phone is going away.
    pub disconnect: bool,
    /// The phone is still there.
    pub heartbeat: bool,
    /// The packet was a repetition and is not sent.
    pub deduped: bool,
}

/// What a frame from the phone asks of the rest of the node.
pub type ToRadioOutcome = ToRadioOutcomeOf<MeshPacket>;

/// The model of a [`ToRadioOutcome`].
pub type ToRadioOutcomeView = ToRadioOutcomeOf<MeshPacketView>;

impl View for ToRadioOutcomeOf<MeshPacket> {
    type V = ToRadioOutcomeView;

    open spec fn view(&self) -> ToRadioOutcomeView {
        ToRadioOutcomeOf {
            packet_to_send: message::opt_view(self.packet_to_send),
            disconnect: self.disconnect,
            heartbeat: self.heartbeat,
            deduped: self.deduped,
        }
    }
}

impl Clone for ToRadioOutcomeOf<MeshPacket> {
    fn clone(&self) -> (r: Self)
        ensures
            r@ == self@,
    {
        ToRadioOutcomeOf {
            packet_to_send: match &self.packet_to_send {
                Some(x) => Some(x.clone()),
                None => None,
            },
            disconnect: self.disconnect,
            heartbeat: self.heartbeat,
            deduped: self.deduped,
        }
    }
}

impl Default for ToRadioOutcomeOf<MeshPacket> {
    fn default() -> (r: Self)
        ensures
            r@ == nothing_asked(),
    {
        ToRadioOutcomeOf {
            packet_to_send: None,
            disconnect: false,
            heartbeat: false,
            deduped: false,
        }
    }
}

/// The outcome of a frame that asks nothing of the rest of the node.
pub open spec fn nothing_asked() -> ToRadioOutcomeView {
    ToRadioOutcomeOf { packet_to_send: None, disconnect: false, heartbeat: false, deduped: false }
}

/// The sections that the phone receives during the handshake.
#[derive(Debug)]
pub struct ConfigSnapshot {
    /// The sections of the device configuration.
    pub config: Vec<Section>,
    /// The sections of the module configuration.
    pub module_config: Vec<Section>,
}

impl Clone for ConfigSnapshot {
    fn clone(&self) -> (r: Self)
        ensures
            message::views(r.config@) == message::views(self.config@),
            message::views(r.module_config@) == message::views(self.module_config@),
    {
        let config = self.config.clone();
        let module_config = self.module_config.clone();
        assert(message::views(config@) =~= message::views(self.config@));
        assert(message::views(module_config@) =~= message::views(self.module_config@));
        ConfigSnapshot { config, module_config }
    }
}

impl Default for ConfigSnapshot {
    fn default() -> (r: Self)
        ensures
            r.config@.len() == 0,
            r.module_config@.len() == 0,
    {
        ConfigSnapshot { config: Vec::new(), module_config: Vec::new() }
    }
}

/// Where the handshake stands.
#[derive(Debug, Clone, Copy, PartialEq, Eq, Structural)]
pub enum State {
    /// There is no phone.
    Disconnected,
    /// What this node is comes next.
    SendMyInfo,
    /// What the device is comes next.
    SendMetadata,
    /// The channel with this index comes next.
    SendChannel(u8),
    /// The section of the device configuration with this index comes next.
    SendConfig(usize),
    /// The section of the module configuration with this index comes next.
    SendModuleConfig(usize),
    /// The node with this index comes next.
    SendNodeInfo(usize),
    /// The nonce comes next.
    SendCompleteId,
    /// The handshake is done.
    SendingPackets,
}

/// The state machine.
#[derive(Debug)]
pub struct PhoneApi {
    state: State,
    config_nonce: u32,
    from_radio_num: u32,
    my_info: Option<MyNodeInfo>,
    metadata: Option<DeviceMetadata>,
    channels: Vec<Channel>,
    config_snapshot: ConfigSnapshot,
    node_infos: Vec<NodeInfo>,
    out_packets: VecDeque<MeshPacket>,
    out_log_records: VecDeque<LogRecord>,
    out_queue_status: VecDeque<QueueStatus>,
    recent_to_radio_ids: VecDeque<u32>,
}

/// The state machine as its contracts see it.
#[verifier::ext_equal]
pub struct PhoneApiView {
    pub state: State,
    pub config_nonce: u32,
    /// The number of the last frame to the phone.
    pub from_radio_num: u32,
    pub my_info: Option<MyNodeInfoView>,
    pub metadata: Option<DeviceMetadataView>,
    pub channels: Seq<ChannelView>,
    pub config: Seq<SectionView>,
    pub module_config: Seq<SectionView>,
    pub node_infos: Seq<NodeInfoView>,
    pub out_packets: Seq<MeshPacketView>,
    pub out_log_records: Seq<LogRecordView>,
    pub out_queue_status: Seq<QueueStatus>,
    pub recent_ids: Seq<u32>,
}

impl View for PhoneApi {
    type V = PhoneApiView;

    closed spec fn view(&self) -> PhoneApiView {
        PhoneApiView {
            state: self.state,
            config_nonce: self.config_nonce,
            from_radio_num: self.from_radio_num,
            my_info: message::opt_view(self.my_info),
            metadata: message::opt_view(self.metadata),
            channels: message::views(self.channels@),
            config: message::views(self.config_snapshot.config@),
            module_config: message::views(self.config_snapshot.module_config@),
            node_infos: message::views(self.node_infos@),
            out_packets: message::views(self.out_packets@),
            out_log_records: message::views(self.out_log_records@),
            out_queue_status: message::views(self.out_queue_status@),
            recent_ids: self.recent_to_radio_ids@,
        }
    }
}

// ---------------------------------------------------------------------------
// Frames from the phone
// ---------------------------------------------------------------------------

/// The remembered ids after one more packet: at most
/// [`RECENT_TO_RADIO_DEDUP`] are kept.
pub open spec fn remembered(recent: Seq<u32>, id: u32) -> Seq<u32> {
    if recent.len() >= RECENT_TO_RADIO_DEDUP {
        recent.skip(1).push(id)
    } else {
        recent.push(id)
    }
}

/// Without a phone: nothing to send, and nothing remembered of the last one.
pub open spec fn closed_view(v: PhoneApiView) -> PhoneApiView {
    PhoneApiView {
        state: State::Disconnected,
        config_nonce: 0,
        from_radio_num: 0,
        out_packets: Seq::empty(),
        out_log_records: Seq::empty(),
        out_queue_status: Seq::empty(),
        recent_ids: Seq::empty(),
        ..v
    }
}

/// Whether a packet from the phone is a repetition.
pub open spec fn is_repetition(v: PhoneApiView, p: MeshPacketView) -> bool {
    p.id != 0 && v.recent_ids.contains(p.id)
}

/// The machine after a frame from the phone.
pub open spec fn after_frame(v: PhoneApiView, frame: ToRadioView) -> PhoneApiView {
    match frame.payload_variant {
        Some(ToRadioVariantOf::Packet(p)) if p.id != 0 && !is_repetition(v, p) => PhoneApiView {
            recent_ids: remembered(v.recent_ids, p.id),
            ..v
        },
        Some(ToRadioVariantOf::WantConfigId(nonce)) => PhoneApiView {
            config_nonce: nonce,
            state: State::SendMyInfo,
            ..v
        },
        Some(ToRadioVariantOf::Disconnect(true)) => closed_view(v),
        _ => v,
    }
}

/// What a frame from the phone asks of the rest of the node.
pub open spec fn frame_outcome(v: PhoneApiView, frame: ToRadioView) -> ToRadioOutcomeView {
    match frame.payload_variant {
        Some(ToRadioVariantOf::Packet(p)) => if is_repetition(v, p) {
            ToRadioOutcomeOf { deduped: true, ..nothing_asked() }
        } else {
            ToRadioOutcomeOf { packet_to_send: Some(p), ..nothing_asked() }
        },
        Some(ToRadioVariantOf::Disconnect(true)) => ToRadioOutcomeOf {
            disconnect: true,
            ..nothing_asked()
        },
        Some(ToRadioVariantOf::Heartbeat(_)) => ToRadioOutcomeOf {
            heartbeat: true,
            ..nothing_asked()
        },
        _ => nothing_asked(),
    }
}

// ---------------------------------------------------------------------------
// Frames to the phone
// ---------------------------------------------------------------------------

/// The state from the nodes on, at index `i`, in which there is a frame to send.
pub open spec fn ready_nodes(v: PhoneApiView, i: int) -> State {
    if i < v.node_infos.len() {
        State::SendNodeInfo(i as usize)
    } else {
        State::SendCompleteId
    }
}

/// The state from the module configuration on in which there is a frame to
/// send.
pub open spec fn ready_module_config(v: PhoneApiView, i: int) -> State {
    if i < v.module_config.len() {
        State::SendModuleConfig(i as usize)
    } else {
        ready_nodes(v, 0)
    }
}

/// The state from the configuration on in which there is a frame to send.
pub open spec fn ready_config(v: PhoneApiView, i: int) -> State {
    if i < v.config.len() {
        State::SendConfig(i as usize)
    } else {
        ready_module_config(v, 0)
    }
}

/// The state from the channels on in which there is a frame to send.
pub open spec fn ready_channels(v: PhoneApiView, i: int) -> State {
    if i < v.channels.len() {
        State::SendChannel(i as u8)
    } else {
        ready_config(v, 0)
    }
}

/// The state from the metadata on in which there is a frame to send.
pub open spec fn ready_metadata(v: PhoneApiView) -> State {
    if v.metadata is Some {
        State::SendMetadata
    } else {
        ready_channels(v, 0)
    }
}

/// The state from the current one on in which there is a frame to send; phases
/// without anything to send are passed over.
pub open spec fn ready(v: PhoneApiView) -> State {
    match v.state {
        State::SendMyInfo => if v.my_info is Some {
            State::SendMyInfo
        } else {
            ready_metadata(v)
        },
        State::SendMetadata => ready_metadata(v),
        State::SendChannel(i) => ready_channels(v, i as int),
        State::SendConfig(i) => ready_config(v, i as int),
        State::SendModuleConfig(i) => ready_module_config(v, i as int),
        State::SendNodeInfo(i) => ready_nodes(v, i as int),
        s => s,
    }
}

/// The next payload for the phone.
pub open spec fn next_payload(v: PhoneApiView) -> Option<FromRadioVariantView> {
    match ready(v) {
        State::Disconnected => None,
        State::SendMyInfo => Some(FromRadioVariantOf::MyInfo(v.my_info->0)),
        State::SendMetadata => Some(FromRadioVariantOf::Metadata(v.metadata->0)),
        State::SendChannel(i) => Some(FromRadioVariantOf::Channel(v.channels[i as int])),
        State::SendConfig(i) => Some(
            FromRadioVariantOf::Config(ConfigOf { payload_variant: Some(v.config[i as int]) }),
        ),
        State::SendModuleConfig(i) => Some(
            FromRadioVariantOf::ModuleConfig(
                ConfigOf { payload_variant: Some(v.module_config[i as int]) },
            ),
        ),
        State::SendNodeInfo(i) => Some(FromRadioVariantOf::NodeInfo(v.node_infos[i as int])),
        State::SendCompleteId => Some(FromRadioVariantOf::ConfigCompleteId(v.config_nonce)),
        State::SendingPackets => if v.out_queue_status.len() > 0 {
            Some(FromRadioVariantOf::QueueStatus(v.out_queue_status[0]))
        } else if v.out_log_records.len() > 0 {
            Some(FromRadioVariantOf::LogRecord(v.out_log_records[0]))
        } else if v.out_packets.len() > 0 {
            Some(FromRadioVariantOf::Packet(v.out_packets[0]))
        } else {
            None
        },
    }
}

/// The machine after the next payload was taken.
pub open spec fn after_payload(v: PhoneApiView) -> PhoneApiView {
    match ready(v) {
        State::Disconnected => v,
        State::SendMyInfo => PhoneApiView { state: State::SendMetadata, ..v },
        State::SendMetadata => PhoneApiView { state: State::SendChannel(0), ..v },
        State::SendChannel(i) => PhoneApiView { state: State::SendChannel((i + 1) as u8), ..v },
        State::SendConfig(i) => PhoneApiView { state: State::SendConfig((i + 1) as usize), ..v },
        State::SendModuleConfig(i) => PhoneApiView {
            state: State::SendModuleConfig((i + 1) as usize),
            ..v
        },
        State::SendNodeInfo(i) => PhoneApiView {
            state: State::SendNodeInfo((i + 1) as usize),
            ..v
        },
        State::SendCompleteId => PhoneApiView {
            state: State::SendingPackets,
            config_nonce: 0,
            ..v
        },
        State::SendingPackets => if v.out_queue_status.len() > 0 {
            PhoneApiView { out_queue_status: v.out_queue_status.skip(1), ..v }
        } else if v.out_log_records.len() > 0 {
            PhoneApiView { out_log_records: v.out_log_records.skip(1), ..v }
        } else if v.out_packets.len() > 0 {
            PhoneApiView { out_packets: v.out_packets.skip(1), ..v }
        } else {
            v
        },
    }
}

/// Whether the next channel has an index that no state can hold.
pub open spec fn out_of_indices(v: PhoneApiView) -> bool {
    v.state == State::SendChannel(u8::MAX) && v.channels.len() > u8::MAX
}

/// The number of the frame after frame `n`; it wraps around.
pub open spec fn next_number(n: u32) -> u32 {
    if n == u32::MAX {
        0
    } else {
        (n + 1) as u32
    }
}

/// The bytes of the frame that carries a payload.
pub open spec fn frame_bytes(id: u32, payload: FromRadioVariantView) -> Seq<u8> {
    message::encoded::<FromRadio>(FromRadioOf { id, payload_variant: Some(payload) })
}

impl PhoneApi {
    /// Without a phone and without anything to tell it.
    pub fn new() -> (r: Self)
        ensures
            r@ == fresh(),
    {
        let r = PhoneApi {
            state: State::Disconnected,
            config_nonce: 0,
            from_radio_num: 0,
            my_info: None,
            metadata: None,
            channels: Vec::new(),
            config_snapshot: ConfigSnapshot::default(),
            node_infos: Vec::new(),
            out_packets: VecDeque::new(),
            out_log_records: VecDeque::new(),
            out_queue_status: VecDeque::new(),
            recent_to_radio_ids: VecDeque::new(),
        };
        assert(r@ =~= fresh());
        r
    }

    /// Sets what this node is.
    pub fn set_my_info(&mut self, my_info: MyNodeInfo)
        ensures
            final(self)@ == (PhoneApiView { my_info: Some(my_info@), ..old(self)@ }),
    {
        self.my_info = Some(my_info);
    }

    /// Sets what the device is.
    pub fn set_metadata(&mut self, metadata: DeviceMetadata)
        ensures
            final(self)@ == (PhoneApiView { metadata: Some(metadata@), ..old(self)@ }),
    {
        self.metadata = Some(metadata);
    }

    /// Sets the channels.
    pub fn set_channels(&mut self, channels: Vec<Channel>)
        ensures
            final(self)@ == (PhoneApiView {
                channels: message::views(channels@),
                ..old(self)@
            }),
    {
        self.channels = channels;
    }

    /// Sets the sections of the configuration.
    pub fn set_config_snapshot(&mut self, snapshot: ConfigSnapshot)
        ensures
            final(self)@ == (PhoneApiView {
                config: message::views(snapshot.config@),
                module_config: message::views(snapshot.module_config@),
                ..old(self)@
            }),
    {
        self.config_snapshot = snapshot;
    }

    /// Sets the known nodes. This node should come first.
    pub fn set_node_db(&mut self, node_infos: Vec<NodeInfo>)
        ensures
            final(self)@ == (PhoneApiView {
                node_infos: message::views(node_infos@),
                ..old(self)@
            }),
    {
        self.node_infos = node_infos;
    }

    /// Where the handshake stands.
    pub fn state(&self) -> (r: State)
        ensures
            r == self@.state,
    {
        self.state
    }

    /// Whether a phone has asked for the configuration.
    pub fn is_connected(&self) -> (r: bool)
        ensures
            r <==> self@.state != State::Disconnected,
    {
        self.state != State::Disconnected
    }

    /// Whether the handshake is done.
    pub fn is_sending_packets(&self) -> (r: bool)
        ensures
            r <==> self@.state == State::SendingPackets,
    {
        self.state == State::SendingPackets
    }

    /// The nonce that the phone asked with, zero outside a handshake.
    pub fn config_nonce(&self) -> (r: u32)
        ensures
            r == self@.config_nonce,
    {
        self.config_nonce
    }

    /// Drops the phone.
    pub fn close(&mut self)
        ensures
            final(self)@ == closed_view(old(self)@),
    {
        self.state = State::Disconnected;
        self.config_nonce = 0;
        self.from_radio_num = 0;
        self.out_packets.clear();
        self.out_log_records.clear();
        self.out_queue_status.clear();
        self.recent_to_radio_ids.clear();
        assert(self@ =~= closed_view(old(self)@));
    }

    /// Takes a frame from the phone.
    pub fn handle_to_radio(&mut self, buf: &[u8]) -> (r: Result<ToRadioOutcome, PhoneApiError>)
        ensures
            match r {
                Ok(outcome) => {
                    &&& buf@.len() <= MAX_TO_FROM_RADIO_SIZE
                    &&& message::decoded::<ToRadio>(buf@) matches Some(frame)
                    &&& outcome@ == frame_outcome(old(self)@, frame)
                    &&& final(self)@ == after_frame(old(self)@, frame)
                },
                Err(PhoneApiError::FrameTooLarge { size }) => {
                    &&& buf@.len() > MAX_TO_FROM_RADIO_SIZE
                    &&& size == buf@.len()
                    &&& final(self)@ == old(self)@
                },
                Err(PhoneApiError::Decode(_)) => {
                    &&& buf@.len() <= MAX_TO_FROM_RADIO_SIZE
                    &&& message::decoded::<ToRadio>(buf@) is None
                    &&& final(self)@ == old(self)@
                },
                Err(PhoneApiError::EncodedTooLarge { .. }) => false,
            },
    {
        if buf.len() > MAX_TO_FROM_RADIO_SIZE {
            return Err(PhoneApiError::FrameTooLarge { size: buf.len() });
        }
        let frame = match decode::<ToRadio>(buf) {
            Ok(frame) => frame,
            Err(e) => return Err(PhoneApiError::Decode(e)),
        };
        let mut outcome = ToRadioOutcome::default();
        match frame.payload_variant {
            Some(ToRadioVariantOf::Packet(packet)) => {
                if packet.id != 0 && self.was_seen_recently(packet.id) {
                    outcome.deduped = true;
                } else {
                    if packet.id != 0 {
                        self.remember_to_radio_id(packet.id);
                    }
                    outcome.packet_to_send = Some(packet);
                }
            },
            Some(ToRadioVariantOf::WantConfigId(nonce)) => {
                self.config_nonce = nonce;
                self.state = State::SendMyInfo;
            },
            Some(ToRadioVariantOf::Disconnect(true)) => {
                outcome.disconnect = true;
                self.close();
            },
            Some(ToRadioVariantOf::Heartbeat(_)) => {
                outcome.heartbeat = true;
            },
            _ => {},
        }
        Ok(outcome)
    }

    fn was_seen_recently(&self, id: u32) -> (r: bool)
        ensures
            r <==> self@.recent_ids.contains(id),
    {
        let mut i: usize = 0;
        while i < self.recent_to_radio_ids.len()
            invariant
                i <= self.recent_to_radio_ids@.len(),
                forall|j: int| 0 <= j < i ==> self.recent_to_radio_ids@[j] != id,
            decreases self.recent_to_radio_ids@.len() - i,
        {
            if self.recent_to_radio_ids[i] == id {
                assert(self@.recent_ids[i as int] == id);
                return true;
            }
            i += 1;
        }
        false
    }

    fn remember_to_radio_id(&mut self, id: u32)
        ensures
            final(self)@ == (PhoneApiView {
                recent_ids: remembered(old(self)@.recent_ids, id),
                ..old(self)@
            }),
    {
        if self.recent_to_radio_ids.len() >= RECENT_TO_RADIO_DEDUP {
            self.recent_to_radio_ids.pop_front();
            assert(self.recent_to_radio_ids@ =~= old(self)@.recent_ids.skip(1));
        }
        self.recent_to_radio_ids.push_back(id);
    }
}

/// A machine that knows nothing.
pub open spec fn fresh() -> PhoneApiView {
    PhoneApiView {
        state: State::Disconnected,
        config_nonce: 0,
        from_radio_num: 0,
        my_info: None,
        metadata: None,
        channels: Seq::empty(),
        config: Seq::empty(),
        module_config: Seq::empty(),
        node_infos: Seq::empty(),
        out_packets: Seq::empty(),
        out_log_records: Seq::empty(),
        out_queue_status: Seq::empty(),
        recent_ids: Seq::empty(),
    }
}

impl Default for PhoneApi {
    fn default() -> (r: Self)
        ensures
            r@ == fresh(),
    {
        Self::new()
    }
}

impl PhoneApi {
    /// The next frame for the phone, or `None` where there is nothing to send.
    /// A frame that would be too large is lost. Of more than 255 channels, only 255
    /// can be sent.
    pub fn pop_from_radio(&mut self) -> (r: Result<Option<Vec<u8>>, PhoneApiError>)
        requires
            !out_of_indices(old(self)@),
        ensures
            match next_payload(old(self)@) {
                None => {
                    &&& r matches Ok(None)
                    &&& final(self)@ == old(self)@
                },
                Some(payload) => {
                    let id = next_number(old(self)@.from_radio_num);
                    let bytes = frame_bytes(id, payload);
                    &&& bytes.len() <= MAX_TO_FROM_RADIO_SIZE ==> (r matches Ok(Some(b)) && b@
                        == bytes)
                    &&& bytes.len() > MAX_TO_FROM_RADIO_SIZE ==> (r matches Err(
                        PhoneApiError::EncodedTooLarge { size },
                    ) && size == bytes.len())
                    &&& final(self)@ == (PhoneApiView {
                        from_radio_num: id,
                        ..after_payload(old(self)@)
                    })
                },
            },
    {
        let payload = match self.next_payload_variant() {
            Some(payload) => payload,
            None => return Ok(None),
        };
        let id: u32 = self.bump_from_radio_num();
        let frame = FromRadioOf { id, payload_variant: Some(payload) };
        let buf = frame.encode_to_vec();
        if buf.len() > MAX_TO_FROM_RADIO_SIZE {
            return Err(PhoneApiError::EncodedTooLarge { size: buf.len() });
        }
        Ok(Some(buf))
    }

    /// Queues a packet for the phone; false if the handshake is not done.
    pub fn enqueue_packet_for_phone(&mut self, packet: MeshPacket) -> (r: bool)
        ensures
            r <==> old(self)@.state == State::SendingPackets,
            final(self)@ == if r {
                PhoneApiView { out_packets: old(self)@.out_packets.push(packet@), ..old(self)@ }
            } else {
                old(self)@
            },
    {
        if !self.is_sending_packets() {
            return false;
        }
        self.out_packets.push_back(packet);
        assert(self@.out_packets =~= old(self)@.out_packets.push(packet@));
        true
    }

    /// Queues a log record for the phone; false if the handshake is not done.
    pub fn enqueue_log_record(&mut self, record: LogRecord) -> (r: bool)
        ensures
            r <==> old(self)@.state == State::SendingPackets,
            final(self)@ == if r {
                PhoneApiView {
                    out_log_records: old(self)@.out_log_records.push(record@),
                    ..old(self)@
                }
            } else {
                old(self)@
            },
    {
        if !self.is_sending_packets() {
            return false;
        }
        self.out_log_records.push_back(record);
        assert(self@.out_log_records =~= old(self)@.out_log_records.push(record@));
        true
    }

    /// Queues a queue state for the phone; false if the handshake is not done.
    pub fn enqueue_queue_status(&mut self, status: QueueStatus) -> (r: bool)
        ensures
            r <==> old(self)@.state == State::SendingPackets,
            final(self)@ == if r {
                PhoneApiView {
                    out_queue_status: old(self)@.out_queue_status.push(status@),
                    ..old(self)@
                }
            } else {
                old(self)@
            },
    {
        if !self.is_sending_packets() {
            return false;
        }
        self.out_queue_status.push_back(status);
        assert(self@.out_queue_status =~= old(self)@.out_queue_status.push(status@));
        true
    }

    fn bump_from_radio_num(&mut self) -> (r: u32)
        ensures
            r == next_number(old(self)@.from_radio_num),
            final(self)@ == (PhoneApiView { from_radio_num: r, ..old(self)@ }),
    {
        self.from_radio_num = self.from_radio_num.wrapping_add(1);
        self.from_radio_num
    }

    fn next_payload_variant(&mut self) -> (r: Option<FromRadioVariant>)
        requires
            !out_of_indices(old(self)@),
        ensures
            message::opt_view(r) == next_payload(old(self)@),
            r is Some ==> final(self)@ == after_payload(old(self)@),
            r is None ==> final(self)@ == old(self)@,
    {
        if self.state == State::SendMyInfo {
            self.state = State::SendMetadata;
            if let Some(my_info) = &self.my_info {
                return Some(FromRadioVariantOf::MyInfo(my_info.clone()));
            }
        }
        if self.state == State::SendMetadata {
            self.state = State::SendChannel(0);
            if let Some(metadata) = &self.metadata {
                return Some(FromRadioVariantOf::Metadata(metadata.clone()));
            }
        }
        if let State::SendChannel(i) = self.state {
            if (i as usize) < self.channels.len() {
                self.state = State::SendChannel(i + 1);
                return Some(FromRadioVariantOf::Channel(self.channels[i as usize].clone()));
            }
            self.state = State::SendConfig(0);
        }
        if let State::SendConfig(i) = self.state {
            if i < self.config_snapshot.config.len() {
                self.state = State::SendConfig(i + 1);
                let section = self.config_snapshot.config[i].clone();
                return Some(
                    FromRadioVariantOf::Config(ConfigOf { payload_variant: Some(section) }),
                );
            }
            self.state = State::SendModuleConfig(0);
        }
        if let State::SendModuleConfig(i) = self.state {
            if i < self.config_snapshot.module_config.len() {
                self.state = State::SendModuleConfig(i + 1);
                let section = self.config_snapshot.module_config[i].clone();
                return Some(
                    FromRadioVariantOf::ModuleConfig(ConfigOf { payload_variant: Some(section) }),
                );
            }
            self.state = State::SendNodeInfo(0);
        }
        if let State::SendNodeInfo(i) = self.state {
            if i < self.node_infos.len() {
                self.state = State::SendNodeInfo(i + 1);
                return Some(FromRadioVariantOf::NodeInfo(self.node_infos[i].clone()));
            }
            self.state = State::SendCompleteId;
        }
        if self.state == State::SendCompleteId {
            let nonce: u32 = self.config_nonce;
            self.config_nonce = 0;
            self.state = State::SendingPackets;
            return Some(FromRadioVariantOf::ConfigCompleteId(nonce));
        }
        if self.state == State::SendingPackets {
            return self.next_queued();
        }
        None
    }

    /// The next payload once the handshake is done.
    fn next_queued(&mut self) -> (r: Option<FromRadioVariant>)
        requires
            old(self)@.state == State::SendingPackets,
        ensures
            message::opt_view(r) == next_payload(old(self)@),
            final(self)@ == after_payload(old(self)@),
    {
        if let Some(status) = self.out_queue_status.pop_front() {
            assert(self@.out_queue_status =~= old(self)@.out_queue_status.skip(1));
            return Some(FromRadioVariantOf::QueueStatus(status));
        }
        if let Some(record) = self.out_log_records.pop_front() {
            assert(self@.out_log_records =~= old(self)@.out_log_records.skip(1));
            return Some(FromRadioVariantOf::LogRecord(record));
        }
        if let Some(packet) = self.out_packets.pop_front() {
            assert(self@.out_packets =~= old(self)@.out_packets.skip(1));
            return Some(FromRadioVariantOf::Packet(packet));
        }
        None
    }
}

// ---------------------------------------------------------------------------
// Laws
// ---------------------------------------------------------------------------

/// The nodes from index `i` on, and the nonce.
pub open spec fn script_nodes(v: PhoneApiView, i: int) -> Seq<FromRadioVariantView> {
    Seq::new(
        if i < v.node_infos.len() {
            (v.node_infos.len() - i) as nat
        } else {
            0
        },
        |k: int| FromRadioVariantOf::NodeInfo(v.node_infos[i + k]),
    ).push(FromRadioVariantOf::ConfigCompleteId(v.config_nonce))
}

/// The sections of the module configuration from index `i` on, and what
/// follows them.
pub open spec fn script_module_config(v: PhoneApiView, i: int) -> Seq<FromRadioVariantView> {
    Seq::new(
        if i < v.module_config.len() {
            (v.module_config.len() - i) as nat
        } else {
            0
        },
        |k: int|
            FromRadioVariantOf::<Seq<u8>, Seq<char>>::ModuleConfig(
                ConfigOf { payload_variant: Some(v.module_config[i + k]) },
            ),
    ) + script_nodes(v, 0)
}

/// The sections of the device configuration from index `i` on, and what follows
/// them.
pub open spec fn script_config(v: PhoneApiView, i: int) -> Seq<FromRadioVariantView> {
    Seq::new(
        if i < v.config.len() {
            (v.config.len() - i) as nat
        } else {
            0
        },
        |k: int|
            FromRadioVariantOf::<Seq<u8>, Seq<char>>::Config(
                ConfigOf { payload_variant: Some(v.config[i + k]) },
            ),
    ) + script_module_config(v, 0)
}

/// The channels from index `i` on, and what follows them.
pub open spec fn script_channels(v: PhoneApiView, i: int) -> Seq<FromRadioVariantView> {
    Seq::new(
        if i < v.channels.len() {
            (v.channels.len() - i) as nat
        } else {
            0
        },
        |k: int| FromRadioVariantOf::<Seq<u8>, Seq<char>>::Channel(v.channels[i + k]),
    ) + script_config(v, 0)
}

/// The metadata, if there are any, and what follows them.
pub open spec fn script_metadata(v: PhoneApiView) -> Seq<FromRadioVariantView> {
    match v.metadata {
        Some(m) => seq![FromRadioVariantOf::<Seq<u8>, Seq<char>>::Metadata(m)] + script_channels(
            v,
            0,
        ),
        None => script_channels(v, 0),
    }
}

/// Everything that the phone still receives in the handshake, in order.
pub open spec fn script(v: PhoneApiView) -> Seq<FromRadioVariantView> {
    match v.state {
        State::Disconnected | State::SendingPackets => Seq::empty(),
        State::SendMyInfo => match v.my_info {
            Some(m) => seq![FromRadioVariantOf::<Seq<u8>, Seq<char>>::MyInfo(m)] + script_metadata(
                v,
            ),
            None => script_metadata(v),
        },
        State::SendMetadata => script_metadata(v),
        State::SendChannel(i) => script_channels(v, i as int),
        State::SendConfig(i) => script_config(v, i as int),
        State::SendModuleConfig(i) => script_module_config(v, i as int),
        State::SendNodeInfo(i) => script_nodes(v, i as int),
        State::SendCompleteId => seq![FromRadioVariantOf::ConfigCompleteId(v.config_nonce)],
    }
}

/// The handshake goes by its script: the next payload is the first of what is
/// left, the rest is left afterwards, and what is left always ends with the
/// nonce. Once nothing is left, the handshake is done and the nonce is cleared.
pub proof fn lemma_script(v: PhoneApiView)
    requires
        v.channels.len() <= u8::MAX,
        v.config.len() <= usize::MAX,
        v.module_config.len() <= usize::MAX,
        v.node_infos.len() <= usize::MAX,
        v.state != State::Disconnected,
        v.state != State::SendingPackets,
    ensures
        script(v).len() > 0,
        script(v).last() == FromRadioVariantOf::<Seq<u8>, Seq<char>>::ConfigCompleteId(
            v.config_nonce,
        ),
        next_payload(v) == Some(script(v)[0]),
        script(after_payload(v)) == script(v).skip(1),
        script(v).len() == 1 <==> after_payload(v).state == State::SendingPackets,
        script(v).len() == 1 ==> after_payload(v).config_nonce == 0,
        script(v).len() > 1 ==> after_payload(v).config_nonce == v.config_nonce,
{
    let u = PhoneApiView { state: ready(v), ..v };
    lemma_script_ready(v);
    lemma_ready(v);
    lemma_script_last(v);
    lemma_script_step(u);
}

/// The ready state is ready, and nothing else changed on the way to it.
proof fn lemma_ready(v: PhoneApiView)
    requires
        v.channels.len() <= u8::MAX,
        v.config.len() <= usize::MAX,
        v.module_config.len() <= usize::MAX,
        v.node_infos.len() <= usize::MAX,
    ensures
        ({
            let u = PhoneApiView { state: ready(v), ..v };
            &&& ready(u) == u.state
            &&& next_payload(u) == next_payload(v)
            &&& v.state != State::Disconnected && v.state != State::SendingPackets
                ==> after_payload(u) == after_payload(v) && u.state != State::Disconnected
                && u.state != State::SendingPackets
        }),
{
}

/// The script ends with the nonce.
proof fn lemma_script_last(v: PhoneApiView)
    requires
        v.state != State::Disconnected,
        v.state != State::SendingPackets,
    ensures
        script(v).len() > 0,
        script(v).last() == FromRadioVariantOf::<Seq<u8>, Seq<char>>::ConfigCompleteId(
            v.config_nonce,
        ),
{
    let end = FromRadioVariantOf::<Seq<u8>, Seq<char>>::ConfigCompleteId(v.config_nonce);
    assert forall|i: int| #[trigger]
        script_nodes(v, i).len() > 0 && script_nodes(v, i).last() == end by {}
    assert forall|i: int| #[trigger]
        script_module_config(v, i).len() > 0 && script_module_config(v, i).last() == end by {
        assert(script_nodes(v, 0).len() > 0);
    }
    assert forall|i: int| #[trigger]
        script_config(v, i).len() > 0 && script_config(v, i).last() == end by {
        assert(script_module_config(v, 0).len() > 0);
    }
    assert forall|i: int| #[trigger]
        script_channels(v, i).len() > 0 && script_channels(v, i).last() == end by {
        assert(script_config(v, 0).len() > 0);
    }
    assert(script_channels(v, 0).len() > 0);
}

/// In a ready state the next payload is the first of the script.
#[verifier::spinoff_prover]
#[verifier::rlimit(60)]
proof fn lemma_script_step(u: PhoneApiView)
    requires
        u.channels.len() <= u8::MAX,
        u.config.len() <= usize::MAX,
        u.module_config.len() <= usize::MAX,
        u.node_infos.len() <= usize::MAX,
        u.state != State::Disconnected,
        u.state != State::SendingPackets,
        ready(u) == u.state,
    ensures
        script(u).len() > 0,
        next_payload(u) == Some(script(u)[0]),
        script(after_payload(u)) == script(u).skip(1),
        script(u).len() == 1 <==> after_payload(u).state == State::SendingPackets,
        script(u).len() == 1 ==> after_payload(u).config_nonce == 0,
        script(u).len() > 1 ==> after_payload(u).config_nonce == u.config_nonce,
{
    let w = after_payload(u);
    lemma_script_last(u);
    match u.state {
        State::SendMyInfo => {
            lemma_script_last(w);
            assert(script_metadata(w) == script_metadata(u));
            assert(script(u).skip(1) =~= script_metadata(u));
        },
        State::SendMetadata => {
            lemma_script_last(w);
            assert(script_channels(w, 0) == script_channels(u, 0));
            assert(script(u).skip(1) =~= script_channels(u, 0));
        },
        State::SendChannel(i) => {
            lemma_script_last(w);
            assert(script_config(w, 0) == script_config(u, 0));
            assert(script_channels(w, i + 1) =~= script_channels(u, i as int).skip(1));
        },
        State::SendConfig(i) => {
            lemma_script_last(w);
            assert(script_module_config(w, 0) == script_module_config(u, 0));
            assert(script_config(w, i + 1) =~= script_config(u, i as int).skip(1));
        },
        State::SendModuleConfig(i) => {
            lemma_script_last(w);
            assert(script_nodes(w, 0) == script_nodes(u, 0));
            assert(script_module_config(w, i + 1) =~= script_module_config(u, i as int).skip(1));
        },
        State::SendNodeInfo(i) => {
            lemma_script_last(w);
            assert(script_nodes(w, i + 1) =~= script_nodes(u, i as int).skip(1));
        },
        _ => {
            assert(script(u).skip(1) =~= Seq::empty());
        },
    }
}

/// Phases without anything to send leave no trace in the script.
proof fn lemma_script_ready(v: PhoneApiView)
    requires
        v.channels.len() <= u8::MAX,
        v.config.len() <= usize::MAX,
        v.module_config.len() <= usize::MAX,
        v.node_infos.len() <= usize::MAX,
    ensures
        script(PhoneApiView { state: ready(v), ..v }) == script(v),
{
    let u = PhoneApiView { state: ready(v), ..v };
    assert forall|i: int| v.node_infos.len() <= i implies #[trigger] script_nodes(v, i) =~= seq![
        FromRadioVariantOf::<Seq<u8>, Seq<char>>::ConfigCompleteId(v.config_nonce),
    ] by {}
    assert forall|i: int| v.module_config.len() <= i implies #[trigger] script_module_config(v, i)
        =~= script_nodes(v, 0) by {}
    assert forall|i: int| v.config.len() <= i implies #[trigger] script_config(v, i)
        =~= script_module_config(v, 0) by {}
    assert forall|i: int| v.channels.len() <= i implies #[trigger] script_channels(v, i)
        =~= script_config(v, 0) by {}
    assert(forall|i: int| script_nodes(u, i) == script_nodes(v, i));
    assert(forall|i: int| script_module_config(u, i) == script_module_config(v, i));
    assert(forall|i: int| script_config(u, i) == script_config(v, i));
    assert(forall|i: int| script_channels(u, i) == script_channels(v, i));
}

/// Asking for the configuration starts the handshake from the beginning,
/// wherever it stood, and its last frame carries the nonce of the phone.
pub proof fn lemma_handshake_starts(v: PhoneApiView, nonce: u32)
    ensures
        ({
            let w = after_frame(
                v,
                crate::proto::phone::ToRadioOf {
                    payload_variant: Some(ToRadioVariantOf::WantConfigId(nonce)),
                },
            );
            &&& w.state == State::SendMyInfo
            &&& w.config_nonce == nonce
            &&& script(w).len() > 0
            &&& script(w).last() == FromRadioVariantOf::<Seq<u8>, Seq<char>>::ConfigCompleteId(
                nonce,
            )
        }),
{
    let w = PhoneApiView { config_nonce: nonce, state: State::SendMyInfo, ..v };
    assert(script_nodes(w, 0).last() == FromRadioVariantOf::<
        Seq<u8>,
        Seq<char>,
    >::ConfigCompleteId(nonce));
}

/// The remembered ids after several packets.
pub open spec fn remembered_all(recent: Seq<u32>, ids: Seq<u32>) -> Seq<u32>
    decreases ids.len(),
{
    if ids.len() == 0 {
        recent
    } else {
        remembered(remembered_all(recent, ids.drop_last()), ids.last())
    }
}

/// The remembered ids are a window: the last [`RECENT_TO_RADIO_DEDUP`] of all
/// that came.
pub proof fn lemma_window(recent: Seq<u32>, ids: Seq<u32>)
    requires
        recent.len() <= RECENT_TO_RADIO_DEDUP,
    ensures
        ({
            let all = recent + ids;
            let n = if all.len() > RECENT_TO_RADIO_DEDUP {
                RECENT_TO_RADIO_DEDUP as int
            } else {
                all.len() as int
            };
            remembered_all(recent, ids) == all.skip(all.len() - n)
        }),
    decreases ids.len(),
{
    let all = recent + ids;
    if ids.len() == 0 {
        assert(all =~= recent);
        assert(all.skip(0) =~= all);
    } else {
        lemma_window(recent, ids.drop_last());
        let before = recent + ids.drop_last();
        assert(before.push(ids.last()) =~= all);
        let n = if all.len() > RECENT_TO_RADIO_DEDUP {
            RECENT_TO_RADIO_DEDUP as int
        } else {
            all.len() as int
        };
        assert(remembered_all(recent, ids) =~= all.skip(all.len() - n));
    }
}

/// A packet that the phone sends a second time, before
/// [`RECENT_TO_RADIO_DEDUP`] others, is not sent again.
pub proof fn lemma_repetition_found(v: PhoneApiView, p: MeshPacketView, later: Seq<u32>)
    requires
        v.recent_ids.len() <= RECENT_TO_RADIO_DEDUP,
        p.id != 0,
        later.len() < RECENT_TO_RADIO_DEDUP,
    ensures
        is_repetition(
            PhoneApiView {
                recent_ids: remembered_all(remembered(v.recent_ids, p.id), later),
                ..v
            },
            p,
        ),
{
    let first = remembered(v.recent_ids, p.id);
    lemma_window(first, later);
    let all = first + later;
    let window = remembered_all(first, later);
    let at = first.len() - 1;
    let n = if all.len() > RECENT_TO_RADIO_DEDUP {
        RECENT_TO_RADIO_DEDUP as int
    } else {
        all.len() as int
    };
    assert(all[at] == p.id);
    assert(window[at - (all.len() - n)] == p.id);
}

/// A frame that fits decodes to its number and its payload, up to the sign of zero.
pub proof fn lemma_frame_decodes(id: u32, payload: FromRadioVariantView)
    requires
        frame_bytes(id, payload).len() <= MAX_TO_FROM_RADIO_SIZE,
        FromRadio::canonical(
            FromRadio::settled(FromRadioOf { id, payload_variant: Some(payload) }),
        ),
    ensures
        message::decoded::<FromRadio>(frame_bytes(id, payload)) == Some(
            FromRadio::settled(FromRadioOf { id, payload_variant: Some(payload) }),
        ),
{
    message::lemma_decode_of_settled::<FromRadio>(
        FromRadioOf { id, payload_variant: Some(payload) },
    );
}

/// A packet from the phone that is not a repetition is handed on as it is, in every
/// field, and nothing else is asked for; its id, if it has one, is then remembered as
/// the last one, and nothing else changes.
pub proof fn lemma_packet_handed_on(v: PhoneApiView, frame: ToRadioView, p: MeshPacketView)
    requires
        frame.payload_variant == Some(ToRadioVariantOf::<Seq<u8>, Seq<char>>::Packet(p)),
        p.id == 0 || !v.recent_ids.contains(p.id),
    ensures
        frame_outcome(v, frame).packet_to_send == Some(p),
        !frame_outcome(v, frame).deduped,
        !frame_outcome(v, frame).disconnect,
        !frame_outcome(v, frame).heartbeat,
        p.id == 0 ==> after_frame(v, frame) == v,
        (PhoneApiView { recent_ids: v.recent_ids, ..after_frame(v, frame) }) == v,
        p.id != 0 ==> after_frame(v, frame).recent_ids.len() > 0 && after_frame(
            v,
            frame,
        ).recent_ids.last() == p.id,
{
}

/// A packet from the phone whose id is remembered is not sent, changes nothing, and is
/// reported as a repetition.
pub proof fn lemma_repetition_dropped(v: PhoneApiView, frame: ToRadioView, p: MeshPacketView)
    requires
        frame.payload_variant == Some(ToRadioVariantOf::<Seq<u8>, Seq<char>>::Packet(p)),
        p.id != 0,
        v.recent_ids.contains(p.id),
    ensures
        frame_outcome(v, frame).packet_to_send is None,
        frame_outcome(v, frame).deduped,
        !frame_outcome(v, frame).disconnect,
        !frame_outcome(v, frame).heartbeat,
        after_frame(v, frame) == v,
{
}

/// Two frames with the same packet: the packet is handed on at most once if it has an id,
/// and each time if it has none.
pub proof fn lemma_packet_sent_once(v: PhoneApiView, frame: ToRadioView, p: MeshPacketView)
    requires
        frame.payload_variant == Some(ToRadioVariantOf::<Seq<u8>, Seq<char>>::Packet(p)),
    ensures
        p.id != 0 ==> frame_outcome(after_frame(v, frame), frame).packet_to_send is None
            && frame_outcome(after_frame(v, frame), frame).deduped,
        p.id == 0 ==> frame_outcome(after_frame(v, frame), frame).packet_to_send == Some(p),
{
    if p.id != 0 && !v.recent_ids.contains(p.id) {
        let ids = after_frame(v, frame).recent_ids;
        assert(ids[ids.len() - 1] == p.id);
    }
}

/// The ids that are remembered after one more packet: that of the packet last, and before
/// it those that were, without the first if there were 20 of them.
pub proof fn lemma_id_remembered(recent: Seq<u32>, id: u32)
    ensures
        remembered(recent, id).last() == id,
        recent.len() < 20 ==> remembered(recent, id).drop_last() == recent,
        recent.len() >= 20 ==> remembered(recent, id).drop_last() == recent.drop_first(),
        recent.len() <= 20 ==> remembered(recent, id).len() <= 20,
{
    assert(remembered(recent, id).drop_last() =~= if recent.len() < 20 {
        recent
    } else {
        recent.drop_first()
    });
}

/// Asking for the configuration starts the handshake with the nonce of the phone and does
/// nothing else: nothing is sent, and what is queued, known and remembered stays.
pub proof fn lemma_config_asked(v: PhoneApiView, frame: ToRadioView, nonce: u32)
    requires
        frame.payload_variant == Some(ToRadioVariantOf::<Seq<u8>, Seq<char>>::WantConfigId(nonce)),
    ensures
        after_frame(v, frame).state == State::SendMyInfo,
        after_frame(v, frame).config_nonce == nonce,
        (PhoneApiView {
            state: v.state,
            config_nonce: v.config_nonce,
            ..after_frame(v, frame)
        }) == v,
        frame_outcome(v, frame).packet_to_send is None,
        !frame_outcome(v, frame).deduped,
        !frame_outcome(v, frame).disconnect,
        !frame_outcome(v, frame).heartbeat,
{
}

/// A phone without a connection leaves nothing behind: no handshake, no nonce, no frame
/// number, nothing queued, and no id remembered. What this node would tell the next one
/// stays.
pub proof fn lemma_closed(v: PhoneApiView)
    ensures
        closed_view(v).state == State::Disconnected,
        closed_view(v).config_nonce == 0,
        closed_view(v).from_radio_num == 0,
        closed_view(v).out_packets.len() == 0,
        closed_view(v).out_log_records.len() == 0,
        closed_view(v).out_queue_status.len() == 0,
        closed_view(v).recent_ids.len() == 0,
        closed_view(v).my_info == v.my_info,
        closed_view(v).metadata == v.metadata,
        closed_view(v).channels == v.channels,
        closed_view(v).config == v.config,
        closed_view(v).module_config == v.module_config,
        closed_view(v).node_infos == v.node_infos,
        next_payload(closed_view(v)) is None,
{
}

/// A phone that says goodbye is dropped and reported; one that only could have said so is
/// not.
pub proof fn lemma_goodbye(v: PhoneApiView, frame: ToRadioView, bye: bool)
    requires
        frame.payload_variant == Some(ToRadioVariantOf::<Seq<u8>, Seq<char>>::Disconnect(bye)),
    ensures
        frame_outcome(v, frame).disconnect == bye,
        frame_outcome(v, frame).packet_to_send is None,
        !frame_outcome(v, frame).deduped,
        !frame_outcome(v, frame).heartbeat,
        bye ==> after_frame(v, frame) == closed_view(v),
        !bye ==> after_frame(v, frame) == v,
{
}

/// Every other frame changes nothing and asks for nothing; a heartbeat is reported.
pub proof fn lemma_other_frames(v: PhoneApiView, frame: ToRadioView)
    requires
        !(frame.payload_variant matches Some(ToRadioVariantOf::Packet(_))),
        !(frame.payload_variant matches Some(ToRadioVariantOf::WantConfigId(_))),
        !(frame.payload_variant matches Some(ToRadioVariantOf::Disconnect(_))),
    ensures
        after_frame(v, frame) == v,
        frame_outcome(v, frame).packet_to_send is None,
        !frame_outcome(v, frame).deduped,
        !frame_outcome(v, frame).disconnect,
        frame_outcome(v, frame).heartbeat <==> (frame.payload_variant matches Some(
            ToRadioVariantOf::Heartbeat(_),
        )),
{
}

/// What a payload leaves as it was: all that this node tells a phone, and the ids that are
/// remembered; during the handshake also everything that is queued.
pub proof fn lemma_payload_keeps(v: PhoneApiView)
    ensures
        after_payload(v).my_info == v.my_info,
        after_payload(v).metadata == v.metadata,
        after_payload(v).channels == v.channels,
        after_payload(v).config == v.config,
        after_payload(v).module_config == v.module_config,
        after_payload(v).node_infos == v.node_infos,
        after_payload(v).recent_ids == v.recent_ids,
        after_payload(v).from_radio_num == v.from_radio_num,
        v.state != State::SendingPackets ==> after_payload(v).out_packets == v.out_packets
            && after_payload(v).out_log_records == v.out_log_records && after_payload(
            v,
        ).out_queue_status == v.out_queue_status,
{
}

/// The machine after `k` payloads were taken.
pub open spec fn after_payloads(v: PhoneApiView, k: nat) -> PhoneApiView
    decreases k,
{
    if k == 0 {
        v
    } else {
        after_payload(after_payloads(v, (k - 1) as nat))
    }
}

proof fn lemma_after_payloads(v: PhoneApiView, k: nat)
    requires
        v.channels.len() <= u8::MAX,
        v.config.len() <= usize::MAX,
        v.module_config.len() <= usize::MAX,
        v.node_infos.len() <= usize::MAX,
        v.state != State::Disconnected,
        v.state != State::SendingPackets,
        k <= script(v).len(),
    ensures
        ({
            let u = after_payloads(v, k);
            &&& u.channels == v.channels
            &&& u.config == v.config
            &&& u.module_config == v.module_config
            &&& u.node_infos == v.node_infos
            &&& u.state != State::Disconnected
            &&& script(u) == script(v).skip(k as int)
            &&& u.state == State::SendingPackets <==> k == script(v).len()
            &&& k < script(v).len() ==> next_payload(u) == Some(script(v)[k as int])
        }),
    decreases k,
{
    if k == 0 {
        assert(script(v).skip(0) =~= script(v));
        lemma_script(v);
    } else {
        let before = after_payloads(v, (k - 1) as nat);
        lemma_after_payloads(v, (k - 1) as nat);
        lemma_script(before);
        lemma_payload_keeps(before);
        let u = after_payloads(v, k);
        assert(script(v).skip(k - 1).skip(1) =~= script(v).skip(k as int));
        if k < script(v).len() {
            lemma_script(u);
            assert(script(u)[0] == script(v)[k as int]);
        }
    }
}

/// The entries of a script that starts from the channels.
proof fn lemma_script_entries(w: PhoneApiView, k: int)
    ensures
        ({
            let c = w.channels.len() as int;
            let d = c + w.config.len();
            let e = d + w.module_config.len();
            let f = e + w.node_infos.len();
            let s = script_channels(w, 0);
            &&& s.len() == f + 1
            &&& 0 <= k < c ==> s[k] == FromRadioVariantOf::<Seq<u8>, Seq<char>>::Channel(
                w.channels[k],
            )
            &&& c <= k < d ==> s[k] == FromRadioVariantOf::<Seq<u8>, Seq<char>>::Config(
                ConfigOf { payload_variant: Some(w.config[k - c]) },
            )
            &&& d <= k < e ==> s[k] == FromRadioVariantOf::<Seq<u8>, Seq<char>>::ModuleConfig(
                ConfigOf { payload_variant: Some(w.module_config[k - d]) },
            )
            &&& e <= k < f ==> s[k] == FromRadioVariantOf::<Seq<u8>, Seq<char>>::NodeInfo(
                w.node_infos[k - e],
            )
            &&& k == f ==> s[k] == FromRadioVariantOf::<Seq<u8>, Seq<char>>::ConfigCompleteId(
                w.config_nonce,
            )
        }),
{
    let c = w.channels.len() as int;
    let d = c + w.config.len();
    let e = d + w.module_config.len();
    let nodes = script_nodes(w, 0);
    let modules = script_module_config(w, 0);
    let sections = script_config(w, 0);
    assert(nodes.len() == w.node_infos.len() + 1);
    assert(modules.len() == w.module_config.len() + nodes.len());
    assert(sections.len() == w.config.len() + modules.len());
    let f = e + w.node_infos.len();
    if c <= k <= f {
        assert(script_channels(w, 0)[k] == sections[k - c]);
    }
    if d <= k <= f {
        assert(sections[k - c] == modules[k - d]);
    }
    if e <= k <= f {
        assert(modules[k - d] == nodes[k - e]);
    }
}

/// What the phone receives after it asked for the configuration, frame by frame: what
/// this node is, if it is set; what the device is, if it is set; each channel, each
/// section of the configuration, each section of the module configuration and each node,
/// in order, none left out and none twice; and last its own nonce. The handshake is then
/// done, and not before.
pub proof fn lemma_handshake_order(v: PhoneApiView, frame: ToRadioView, nonce: u32, k: nat)
    requires
        frame.payload_variant == Some(ToRadioVariantOf::<Seq<u8>, Seq<char>>::WantConfigId(nonce)),
        v.channels.len() <= u8::MAX,
        v.config.len() <= usize::MAX,
        v.module_config.len() <= usize::MAX,
        v.node_infos.len() <= usize::MAX,
    ensures
        ({
            let w = after_frame(v, frame);
            let a = if v.my_info is Some {
                1int
            } else {
                0
            };
            let b = a + if v.metadata is Some {
                1int
            } else {
                0
            };
            let c = b + v.channels.len();
            let d = c + v.config.len();
            let e = d + v.module_config.len();
            let f = e + v.node_infos.len();
            let payload = next_payload(after_payloads(w, k));
            &&& k < a ==> payload == Some(
                FromRadioVariantOf::<Seq<u8>, Seq<char>>::MyInfo(v.my_info->0),
            )
            &&& a <= k < b ==> payload == Some(
                FromRadioVariantOf::<Seq<u8>, Seq<char>>::Metadata(v.metadata->0),
            )
            &&& b <= k < c ==> payload == Some(
                FromRadioVariantOf::<Seq<u8>, Seq<char>>::Channel(v.channels[k - b]),
            )
            &&& c <= k < d ==> (payload matches Some(FromRadioVariantOf::Config(s))
                && s.payload_variant == Some(v.config[k - c]))
            &&& d <= k < e ==> (payload matches Some(FromRadioVariantOf::ModuleConfig(s))
                && s.payload_variant == Some(v.module_config[k - d]))
            &&& e <= k < f ==> payload == Some(
                FromRadioVariantOf::<Seq<u8>, Seq<char>>::NodeInfo(v.node_infos[k - e]),
            )
            &&& k == f ==> payload == Some(
                FromRadioVariantOf::<Seq<u8>, Seq<char>>::ConfigCompleteId(nonce),
            )
            &&& k <= f ==> after_payloads(w, k).state != State::SendingPackets
            &&& k == f + 1 ==> after_payloads(w, k).state == State::SendingPackets
        }),
{
    let w = PhoneApiView { config_nonce: nonce, state: State::SendMyInfo, ..v };
    let a = if v.my_info is Some {
        1int
    } else {
        0
    };
    let b = a + if v.metadata is Some {
        1int
    } else {
        0
    };
    let f = b + v.channels.len() + v.config.len() + v.module_config.len() + v.node_infos.len();
    lemma_script_entries(w, k - b);
    let tail = script_channels(w, 0);
    assert(script(w).len() == f + 1 && (k >= b && k <= f ==> script(w)[k as int] == tail[k - b]) && (
    k < a ==> script(w)[k as int] == FromRadioVariantOf::<Seq<u8>, Seq<char>>::MyInfo(
        v.my_info->0,
    )) && (a <= k < b ==> script(w)[k as int] == FromRadioVariantOf::<
        Seq<u8>,
        Seq<char>,
    >::Metadata(v.metadata->0)));
    if k <= f + 1 {
        lemma_after_payloads(w, k);
    }
}

/// After the handshake the phone receives what is queued, the oldest of each sort first:
/// queue states before log records, and those before packets. What was received leaves
/// its queue, and nothing else changes. With nothing queued there is nothing to receive.
pub proof fn lemma_queued(v: PhoneApiView)
    requires
        v.state == State::SendingPackets,
    ensures
        v.out_queue_status.len() > 0 ==> next_payload(v) == Some(
            FromRadioVariantOf::<Seq<u8>, Seq<char>>::QueueStatus(v.out_queue_status[0]),
        ) && after_payload(v).out_queue_status == v.out_queue_status.drop_first()
            && after_payload(v).out_log_records == v.out_log_records && after_payload(
            v,
        ).out_packets == v.out_packets,
        v.out_queue_status.len() == 0 && v.out_log_records.len() > 0 ==> next_payload(v) == Some(
            FromRadioVariantOf::<Seq<u8>, Seq<char>>::LogRecord(v.out_log_records[0]),
        ) && after_payload(v).out_log_records == v.out_log_records.drop_first() && after_payload(
            v,
        ).out_queue_status == v.out_queue_status && after_payload(v).out_packets == v.out_packets,
        v.out_queue_status.len() == 0 && v.out_log_records.len() == 0 && v.out_packets.len() > 0
            ==> next_payload(v) == Some(
            FromRadioVariantOf::<Seq<u8>, Seq<char>>::Packet(v.out_packets[0]),
        ) && after_payload(v).out_packets == v.out_packets.drop_first() && after_payload(
            v,
        ).out_queue_status == v.out_queue_status && after_payload(v).out_log_records
            == v.out_log_records,
        v.out_queue_status.len() == 0 && v.out_log_records.len() == 0 && v.out_packets.len() == 0
            ==> next_payload(v) is None && after_payload(v) == v,
        after_payload(v).state == State::SendingPackets,
        after_payload(v).config_nonce == v.config_nonce,
{
    assert(v.out_queue_status.skip(1) =~= v.out_queue_status.drop_first() || v.out_queue_status.len()
        == 0);
    assert(v.out_log_records.skip(1) =~= v.out_log_records.drop_first() || v.out_log_records.len()
        == 0);
    assert(v.out_packets.skip(1) =~= v.out_packets.drop_first() || v.out_packets.len() == 0);
}

/// Packets that are queued for the phone reach it in the order in which they were queued,
/// as they are.
pub proof fn lemma_packets_in_order(v: PhoneApiView, p: MeshPacketView, k: nat)
    requires
        v.state == State::SendingPackets,
        v.out_queue_status.len() == 0,
        v.out_log_records.len() == 0,
        k <= v.out_packets.len(),
    ensures
        ({
            let queued = PhoneApiView { out_packets: v.out_packets.push(p), ..v };
            &&& after_payloads(queued, k).out_packets == queued.out_packets.skip(k as int)
            &&& next_payload(after_payloads(queued, k)) == Some(
                FromRadioVariantOf::<Seq<u8>, Seq<char>>::Packet(
                    if k < v.out_packets.len() {
                        v.out_packets[k as int]
                    } else {
                        p
                    },
                ),
            )
        }),
{
    let queued = PhoneApiView { out_packets: v.out_packets.push(p), ..v };
    lemma_packets_taken(queued, k);
    lemma_queued(after_payloads(queued, k));
}

proof fn lemma_packets_taken(v: PhoneApiView, k: nat)
    requires
        v.state == State::SendingPackets,
        v.out_queue_status.len() == 0,
        v.out_log_records.len() == 0,
        k <= v.out_packets.len(),
    ensures
        after_payloads(v, k).state == State::SendingPackets,
        after_payloads(v, k).out_queue_status.len() == 0,
        after_payloads(v, k).out_log_records.len() == 0,
        after_payloads(v, k).out_packets == v.out_packets.skip(k as int),
    decreases k,
{
    if k == 0 {
        assert(v.out_packets.skip(0) =~= v.out_packets);
    } else {
        lemma_packets_taken(v, (k - 1) as nat);
        lemma_queued(after_payloads(v, (k - 1) as nat));
        assert(v.out_packets.skip(k - 1).drop_first() =~= v.out_packets.skip(k as int));
    }
}

/// Frames are numbered one after the other, and after the last number from zero on.
pub proof fn lemma_next_number(n: u32)
    ensures
        next_number(n) as int == (n + 1) % 0x1_0000_0000,
{
}

} // verus!
