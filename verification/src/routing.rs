//! The routing module and the rules of rebroadcasting and answering.

use crate::mesh::{self, hops_away, is_broadcast, NodeNum, NODENUM_BROADCAST};
use crate::message::{self, Message};
use crate::module::{Call, MeshModule, ModuleContext, ProcessMessage};
use crate::proto::packet::{
    Data, DataOf, MeshPacket, MeshPacketOf, MeshPacketView, PayloadVariantOf, Routing, RoutingOf,
    RoutingVariantOf,
};
use crate::proto::ports::{RoutingError, PORT_ROUTING, PRIORITY_ACK};
use crate::wire;
use vstd::prelude::*;
use vstd::string::StringExecFns;

verus! {

/// The highest hop limit.
pub const HOP_MAX: u8 = 7;

/// The usual hop limit.
pub const HOP_RELIABLE: u8 = 3;

/// The routing module: it sees every packet and answers none.
#[derive(Clone, Copy)]
pub struct RoutingModule {
    calls: Ghost<Seq<Call>>,
}

impl RoutingModule {
    /// The routing module.
    pub fn new() -> (m: Self)
        ensures
            m.calls() == Seq::<Call>::empty(),
    {
        RoutingModule { calls: Ghost(Seq::empty()) }
    }
}

impl Default for RoutingModule {
    fn default() -> (m: Self)
        ensures
            m.calls() == Seq::<Call>::empty(),
    {
        Self::new()
    }
}

impl MeshModule for RoutingModule {
    open spec fn promiscuous(&self) -> bool {
        true
    }

    open spec fn loopback(&self) -> bool {
        false
    }

    open spec fn encrypted(&self) -> bool {
        true
    }

    open spec fn bound(&self) -> Option<Seq<char>> {
        None
    }

    open spec fn wants(&self, p: MeshPacketView) -> bool {
        true
    }

    closed spec fn calls(&self) -> Seq<Call> {
        self.calls@
    }

    fn name(&self) -> (r: &str)
        ensures
            r@ == "routing"@,
    {
        "routing"
    }

    fn is_promiscuous(&self) -> (r: bool) {
        true
    }

    fn loopback_ok(&self) -> (r: bool) {
        false
    }

    fn encrypted_ok(&self) -> (r: bool) {
        true
    }

    fn bound_channel(&self) -> (r: Option<&str>) {
        None
    }

    fn want_packet(&self, packet: &MeshPacket) -> (r: bool) {
        true
    }

    fn handle_received(
        &mut self,
        packet: &MeshPacket,
        ctx: &ModuleContext<'_>,
    ) -> (r: ProcessMessage)
        ensures
            r == ProcessMessage::Continue,
    {
        self.calls = Ghost(
            self.calls@.push(
                Call::Handled {
                    packet: packet@,
                    ctx: ctx@,
                    decision: ProcessMessage::Continue,
                },
            ),
        );
        ProcessMessage::Continue
    }

    fn alloc_reply(&mut self, request: &MeshPacket) -> (r: Option<MeshPacket>)
        ensures
            r is None,
    {
        self.calls = Ghost(self.calls@.push(Call::Asked { request: request@, reply: None }));
        None
    }
}

// ---------------------------------------------------------------------------
// Rebroadcasting
// ---------------------------------------------------------------------------

/// Which packets a node rebroadcasts.
#[derive(Debug, Clone, Copy, PartialEq, Eq, Structural)]
pub enum RebroadcastMode {
    /// Every packet.
    All,
    /// Every packet, without decoding it first.
    AllSkipDecoding,
    /// Packets of the local mesh.
    LocalOnly,
    /// Packets of known nodes.
    KnownOnly,
    /// No packet.
    Never,
    /// Packets for the core ports.
    CorePortnumsOnly,
}

/// What is known of the licence of a node.
#[derive(Debug, Clone, Copy, PartialEq, Eq, Structural)]
pub enum UserLicenseStatus {
    /// Nothing.
    Unknown,
    /// It has none.
    NotLicensed,
    /// It has one.
    Licensed,
}

impl Default for UserLicenseStatus {
    fn default() -> (r: Self)
        ensures
            r == UserLicenseStatus::Unknown,
    {
        UserLicenseStatus::Unknown
    }
}

/// Whether a packet may be rebroadcast.
#[derive(Debug, Clone, Copy, PartialEq, Eq, Structural)]
pub enum RebroadcastDecision {
    /// It may.
    Allow,
    /// It may not.
    Drop,
}

impl RebroadcastDecision {
    /// The decision in one word.
    pub fn describe(&self) -> (r: String)
        ensures
            r@ == match self {
                RebroadcastDecision::Allow => "allow"@,
                RebroadcastDecision::Drop => "drop"@,
            },
    {
        match self {
            RebroadcastDecision::Allow => String::from_str("allow"),
            RebroadcastDecision::Drop => String::from_str("drop"),
        }
    }
}

/// What the decision on a packet depends on beside the packet.
#[derive(Debug, Clone, Copy)]
pub struct RebroadcastInputs {
    /// Which packets this node rebroadcasts.
    pub mode: RebroadcastMode,
    /// The sender is in the node database, with a user.
    pub sender_known_with_user: bool,
    /// The receiver is in the node database, with a user.
    pub recipient_known_with_user: bool,
    /// The owner of this node is licensed.
    pub we_are_licensed: bool,
    /// What is known of the sender's licence.
    pub sender_license_status: UserLicenseStatus,
    /// What is known of the receiver's licence. A broadcast has no receiver.
    pub recipient_license_status: UserLicenseStatus,
}

impl Default for RebroadcastInputs {
    fn default() -> (r: Self)
        ensures
            r == (RebroadcastInputs {
                mode: RebroadcastMode::All,
                sender_known_with_user: false,
                recipient_known_with_user: false,
                we_are_licensed: false,
                sender_license_status: UserLicenseStatus::Unknown,
                recipient_license_status: UserLicenseStatus::Unknown,
            }),
    {
        RebroadcastInputs {
            mode: RebroadcastMode::All,
            sender_known_with_user: false,
            recipient_known_with_user: false,
            we_are_licensed: false,
            sender_license_status: UserLicenseStatus::Unknown,
            recipient_license_status: UserLicenseStatus::Unknown,
        }
    }
}

/// Whether a packet is encrypted.
pub open spec fn is_encrypted(p: MeshPacketView) -> bool {
    p.payload_variant matches Some(PayloadVariantOf::Encrypted(_))
}

/// Whether an encrypted packet may be encrypted with a public key: it is on no
/// channel and for one node.
pub open spec fn may_be_pki(p: MeshPacketView) -> bool {
    is_encrypted(p) && p.channel == 0 && p.to != NODENUM_BROADCAST
}

/// Whether a packet may be rebroadcast. In the modes for local and for known
/// nodes an encrypted packet may only if it may be encrypted with a public key
/// and its sender or its receiver is known. Any other packet may, unless this
/// node is licensed and the sender or the receiver is known not to be.
pub open spec fn rebroadcast_allowed(p: MeshPacketView, inputs: RebroadcastInputs) -> bool {
    if is_encrypted(p) && (inputs.mode == RebroadcastMode::LocalOnly || inputs.mode
        == RebroadcastMode::KnownOnly) {
        may_be_pki(p) && (inputs.sender_known_with_user || inputs.recipient_known_with_user)
    } else {
        !(inputs.we_are_licensed && (inputs.sender_license_status == UserLicenseStatus::NotLicensed
            || (p.to != NODENUM_BROADCAST && inputs.recipient_license_status
            == UserLicenseStatus::NotLicensed)))
    }
}

/// Decides whether a packet may be rebroadcast.
pub fn rebroadcast_decision(packet: &MeshPacket, inputs: RebroadcastInputs) -> (r:
    RebroadcastDecision)
    ensures
        r == RebroadcastDecision::Allow <==> rebroadcast_allowed(packet@, inputs),
        r == RebroadcastDecision::Drop <==> !rebroadcast_allowed(packet@, inputs),
{
    let encrypted = matches!(packet.payload_variant, Some(PayloadVariantOf::Encrypted(_)));
    let maybe_pki = encrypted && packet.channel == 0 && !is_broadcast(packet.to);
    if encrypted && (inputs.mode == RebroadcastMode::LocalOnly || inputs.mode
        == RebroadcastMode::KnownOnly) {
        if !maybe_pki {
            return RebroadcastDecision::Drop;
        }
        if !inputs.sender_known_with_user && !inputs.recipient_known_with_user {
            return RebroadcastDecision::Drop;
        }
    } else if inputs.we_are_licensed {
        if inputs.sender_license_status == UserLicenseStatus::NotLicensed {
            return RebroadcastDecision::Drop;
        }
        if !is_broadcast(packet.to) && inputs.recipient_license_status
            == UserLicenseStatus::NotLicensed {
            return RebroadcastDecision::Drop;
        }
    }
    RebroadcastDecision::Allow
}

// ---------------------------------------------------------------------------
// Hop limits
// ---------------------------------------------------------------------------

/// The configured hop limit, capped: at [`HOP_RELIABLE`] in event mode, at
/// [`HOP_MAX`] otherwise.
pub open spec fn capped_hop_limit(configured: u8, event_mode: bool) -> u8 {
    let cap = if event_mode {
        HOP_RELIABLE
    } else {
        HOP_MAX
    };
    if configured > cap {
        cap
    } else {
        configured
    }
}

/// The configured hop limit, capped: at [`HOP_RELIABLE`] in event mode, at
/// [`HOP_MAX`] otherwise.
pub fn configured_or_default_hop_limit(configured: u8, event_mode: bool) -> (r: u8)
    ensures
        r == capped_hop_limit(configured, event_mode),
{
    if event_mode {
        if configured > HOP_RELIABLE {
            HOP_RELIABLE
        } else {
            configured
        }
    } else if configured >= HOP_MAX {
        HOP_MAX
    } else {
        configured
    }
}

/// The hop limit of the answer to a request.
///
/// A request that made more hops than are configured is answered with as many,
/// up to [`HOP_MAX`], unless in event mode. A direct request is answered
/// directly. Any other is answered with two hops more than it made, as long as
/// that is below the configured limit, and with the configured limit, capped,
/// otherwise and where the hops are not known.
pub open spec fn response_hop_limit(
    request: MeshPacketView,
    configured: u8,
    event_mode: bool,
) -> u8 {
    match mesh::hops_made(request) {
        Some(hops) if hops > configured && !event_mode => if hops > HOP_MAX {
            HOP_MAX
        } else {
            hops
        },
        Some(hops) if hops <= configured && request.hop_start == 0 => 0,
        Some(hops) if hops <= configured && hops + 2 < configured => (hops + 2) as u8,
        _ => capped_hop_limit(configured, event_mode),
    }
}

/// The hop limit of the answer to a request.
pub fn hop_limit_for_response(
    request: &MeshPacket,
    configured_hop_limit: u8,
    event_mode: bool,
) -> (r: u8)
    ensures
        r == response_hop_limit(request@, configured_hop_limit, event_mode),
{
    if let Some(hops) = hops_away(request) {
        if hops > configured_hop_limit {
            if !event_mode {
                return if hops > HOP_MAX {
                    HOP_MAX
                } else {
                    hops
                };
            }
        } else if request.hop_start == 0 {
            return 0;
        } else if (hops as u32) + 2 < configured_hop_limit as u32 {
            return hops + 2;
        }
    }
    configured_or_default_hop_limit(configured_hop_limit, event_mode)
}

/// The hop limit of an answer is at most the configured one or, outside event
/// mode, [`HOP_MAX`]; in event mode it never exceeds the configured one.
pub proof fn lemma_response_hop_limit(request: MeshPacketView, configured: u8, event_mode: bool)
    ensures
        response_hop_limit(request, configured, event_mode) <= configured || (!event_mode
            && response_hop_limit(request, configured, event_mode) <= HOP_MAX),
        configured <= HOP_MAX ==> response_hop_limit(request, configured, event_mode) <= HOP_MAX,
{
}

// ---------------------------------------------------------------------------
// Acknowledgements
// ---------------------------------------------------------------------------

/// The packet that acknowledges or refuses another.
pub open spec fn ack_nak(
    err: RoutingError,
    to: NodeNum,
    id_from: u32,
    channel: u32,
    hop_limit: u8,
) -> MeshPacketView {
    MeshPacketOf {
        to,
        channel,
        hop_limit: hop_limit as u32,
        priority: PRIORITY_ACK,
        payload_variant: Some(
            PayloadVariantOf::Decoded(
                DataOf {
                    portnum: PORT_ROUTING,
                    payload: message::encoded::<Routing>(
                        RoutingOf {
                            variant: Some(RoutingVariantOf::ErrorReason(err.number())),
                        },
                    ),
                    request_id: id_from,
                    ..Data::blank()
                },
            ),
        ),
        ..MeshPacket::blank()
    }
}

/// Builds the packet that acknowledges or refuses the packet with the id
/// `id_from`. Its sender and its own id are left to the caller.
pub fn alloc_ack_nak(
    err: RoutingError,
    to: NodeNum,
    id_from: u32,
    channel: u32,
    hop_limit: u8,
) -> (r: MeshPacket)
    ensures
        r@ == ack_nak(err, to, id_from, channel, hop_limit),
{
    let routing: Routing = RoutingOf {
        variant: Some(RoutingVariantOf::ErrorReason(err.number())),
    };
    let payload = routing.encode_to_vec();
    let data = DataOf {
        portnum: PORT_ROUTING,
        payload,
        request_id: id_from,
        ..Data::new_blank()
    };
    MeshPacketOf {
        to,
        channel,
        hop_limit: hop_limit as u32,
        priority: PRIORITY_ACK,
        payload_variant: Some(PayloadVariantOf::Decoded(data)),
        ..MeshPacket::new_blank()
    }
}

/// An acknowledgement says what it was built for: its payload decodes to the
/// error.
pub proof fn lemma_ack_nak_decodes(
    err: RoutingError,
    to: NodeNum,
    id_from: u32,
    channel: u32,
    hop_limit: u8,
)
    ensures
        ack_nak(err, to, id_from, channel, hop_limit).payload_variant matches Some(
            PayloadVariantOf::Decoded(d),
        ) && message::decoded::<Routing>(d.payload) == Some(
            RoutingOf::<Seq<u8>> { variant: Some(RoutingVariantOf::ErrorReason(err.number())) },
        ),
{
    let routing = RoutingOf::<Seq<u8>> {
        variant: Some(RoutingVariantOf::ErrorReason(err.number())),
    };
    reveal(crate::proto::packet::routing_variant_canonical);
    reveal(crate::proto::packet::routing_variant_field);
    reveal(message::with_opt_field);
    let field = message::varint_field(3, message::int32_bits(err.number()));
    wire::lemma_fields_bytes_push(Seq::empty(), field);
    wire::lemma_varint_len(24);
    wire::lemma_varint_len(message::int32_bits(err.number()) as nat);
    message::lemma_decode_of_encode::<Routing>(routing);
}

// ---------------------------------------------------------------------------
// Laws
// ---------------------------------------------------------------------------

/// A licensed node never rebroadcasts a packet whose sender is known not to be
/// licensed, a broadcast or not, outside the rule for encrypted packets in the modes
/// for local and for known nodes.
pub proof fn lemma_unlicensed_sender_dropped(p: MeshPacketView, inputs: RebroadcastInputs)
    requires
        inputs.we_are_licensed,
        inputs.sender_license_status == UserLicenseStatus::NotLicensed,
        !((p.payload_variant matches Some(PayloadVariantOf::Encrypted(_))) && (inputs.mode
            == RebroadcastMode::LocalOnly || inputs.mode == RebroadcastMode::KnownOnly)),
    ensures
        !rebroadcast_allowed(p, inputs),
{
}

/// Nor a packet for one node that is known not to be licensed. Of a broadcast nothing
/// that is known of a receiver matters.
pub proof fn lemma_unlicensed_receiver_dropped(p: MeshPacketView, inputs: RebroadcastInputs)
    requires
        !((p.payload_variant matches Some(PayloadVariantOf::Encrypted(_))) && (inputs.mode
            == RebroadcastMode::LocalOnly || inputs.mode == RebroadcastMode::KnownOnly)),
    ensures
        inputs.we_are_licensed && inputs.recipient_license_status == UserLicenseStatus::NotLicensed
            && p.to != 0xffff_ffff ==> !rebroadcast_allowed(p, inputs),
        p.to == 0xffff_ffff ==> forall|other: UserLicenseStatus| #[trigger]
            rebroadcast_allowed(
                p,
                RebroadcastInputs { recipient_license_status: other, ..inputs },
            ) == rebroadcast_allowed(p, inputs),
{
}

/// Outside that rule nothing else is held back: a packet is dropped only by a licensed
/// node, and only where its sender, or the one node that it is for, is known not to be
/// licensed.
pub proof fn lemma_dropped_only_for_licence(p: MeshPacketView, inputs: RebroadcastInputs)
    requires
        !((p.payload_variant matches Some(PayloadVariantOf::Encrypted(_))) && (inputs.mode
            == RebroadcastMode::LocalOnly || inputs.mode == RebroadcastMode::KnownOnly)),
        !rebroadcast_allowed(p, inputs),
    ensures
        inputs.we_are_licensed,
        inputs.sender_license_status == UserLicenseStatus::NotLicensed || (p.to != 0xffff_ffff
            && inputs.recipient_license_status == UserLicenseStatus::NotLicensed),
{
}

/// In the modes for local and for known nodes an encrypted packet passes if and only if
/// it is on no channel, for one node, and from or for a node that is known. Licences do
/// not matter to it.
pub proof fn lemma_encrypted_among_known(p: MeshPacketView, inputs: RebroadcastInputs)
    requires
        p.payload_variant matches Some(PayloadVariantOf::Encrypted(_)),
        inputs.mode == RebroadcastMode::LocalOnly || inputs.mode == RebroadcastMode::KnownOnly,
    ensures
        p.channel != 0 ==> !rebroadcast_allowed(p, inputs),
        p.to == 0xffff_ffff ==> !rebroadcast_allowed(p, inputs),
        !inputs.sender_known_with_user && !inputs.recipient_known_with_user
            ==> !rebroadcast_allowed(p, inputs),
        p.channel == 0 && p.to != 0xffff_ffff && inputs.sender_known_with_user
            ==> rebroadcast_allowed(p, inputs),
        p.channel == 0 && p.to != 0xffff_ffff && inputs.recipient_known_with_user
            ==> rebroadcast_allowed(p, inputs),
{
}

/// A capped hop limit is the configured one as long as that is within the cap, 3 in
/// event mode and 7 otherwise, and the cap beyond; it never exceeds either.
pub proof fn lemma_capped_hop_limit(configured: u8, event_mode: bool)
    ensures
        capped_hop_limit(configured, event_mode) <= configured,
        event_mode ==> capped_hop_limit(configured, event_mode) <= 3,
        capped_hop_limit(configured, event_mode) <= 7,
        configured <= 3 || (configured <= 7 && !event_mode) ==> capped_hop_limit(
            configured,
            event_mode,
        ) == configured,
        event_mode && configured > 3 ==> capped_hop_limit(configured, event_mode) == 3,
        !event_mode && configured > 7 ==> capped_hop_limit(configured, event_mode) == 7,
{
}

/// What an answer's hop limit is owed. It reaches a request that made no more hops than
/// are configured wherever the configured limit does; it leaves two hops to spare where
/// the configured limit allows; a direct request is answered directly; one that made
/// more hops than are configured is answered with as many, up to 7, outside event mode;
/// and where the hops are not told, or in event mode are too many, the capped
/// configured limit stands.
pub proof fn lemma_answer_reaches(request: MeshPacketView, configured: u8, event_mode: bool)
    ensures
        ({
            let told = request.hop_limit <= request.hop_start && (request.hop_start > 0 || (
            request.payload_variant matches Some(PayloadVariantOf::Decoded(d)) && d.bitfield
                is Some));
            let hops = (request.hop_start - request.hop_limit) % 256;
            let r = response_hop_limit(request, configured, event_mode);
            &&& !told ==> r == capped_hop_limit(configured, event_mode)
            &&& told && hops > configured && !event_mode ==> r == if hops > 7 {
                7
            } else {
                hops
            }
            &&& told && hops > configured && event_mode ==> r == capped_hop_limit(
                configured,
                event_mode,
            )
            &&& told && hops <= configured && request.hop_start == 0 ==> r == 0
            &&& told && hops + 2 < configured && request.hop_start > 0 ==> r == hops + 2
            &&& told && hops <= configured <= hops + 2 && request.hop_start > 0 ==> r
                == capped_hop_limit(configured, event_mode)
            &&& told && hops <= configured <= 3 ==> r >= hops
            &&& told && hops <= configured <= 7 && !event_mode ==> r >= hops
        }),
{
    mesh::lemma_hops_made(request);
}

/// The hop limit of an answer grows with the hops that the request made, as long as
/// both made no more than are configured.
pub proof fn lemma_answer_grows(
    near: MeshPacketView,
    far: MeshPacketView,
    configured: u8,
    event_mode: bool,
)
    requires
        mesh::hops_made(near) matches Some(m) && (mesh::hops_made(far) matches Some(n) && m <= n
            <= configured),
        near.hop_start > 0,
        far.hop_start > 0,
        configured <= 3 || (configured <= 7 && !event_mode),
    ensures
        response_hop_limit(near, configured, event_mode) <= response_hop_limit(
            far,
            configured,
            event_mode,
        ),
{
}

/// What an acknowledgement is: a decoded packet on the routing port, for the node and
/// on the channel that it was built for, with its hop limit and with priority, that
/// names the packet that it answers and asks for nothing itself. Its sender and its own
/// id are not set.
pub proof fn lemma_ack_nak(
    err: RoutingError,
    to: NodeNum,
    id_from: u32,
    channel: u32,
    hop_limit: u8,
)
    ensures
        ({
            let r = ack_nak(err, to, id_from, channel, hop_limit);
            &&& r.to == to
            &&& r.channel == channel
            &&& r.hop_limit == hop_limit
            &&& r.priority == 120
            &&& r.from == 0
            &&& r.id == 0
            &&& r.hop_start == 0
            &&& r.next_hop == 0
            &&& r.relay_node == 0
            &&& !r.want_ack
            &&& !r.via_mqtt
            &&& !r.pki_encrypted
            &&& r.payload_variant matches Some(PayloadVariantOf::Decoded(d)) && d.portnum == 5
                && d.request_id == id_from && !d.want_response && d.dest == 0 && d.source == 0
                && d.reply_id == 0 && d.emoji == 0 && d.bitfield is None
        }),
{
}

/// What an acknowledgement says is what it was built with: two of them with the same
/// payload carry the same error, and zero stands for a plain acknowledgement.
pub proof fn lemma_error_numbers(a: RoutingError, b: RoutingError)
    ensures
        a.number() == b.number() ==> a == b,
        a.number() == 0 <==> a == RoutingError::NoError,
        0 <= a.number() <= 9 || 32 <= a.number() <= 39,
{
}

/// The routing module sees every packet, decoded or not and for whichever node, but none of
/// this node itself.
pub proof fn lemma_what_is_seen(m: RoutingModule, p: MeshPacketView)
    ensures
        m.wants(p),
        m.promiscuous(),
        m.encrypted(),
        !m.loopback(),
        m.bound() is None,
{
}

} // verus!
