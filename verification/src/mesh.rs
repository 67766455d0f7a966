//! Node numbers and what the header of a packet tells.

use crate::proto::packet::{MeshPacket, MeshPacketView, PayloadVariantOf};
use vstd::prelude::*;

verus! {

/// A node number.
pub type NodeNum = u32;

/// The node number that stands for every node.
pub const NODENUM_BROADCAST: NodeNum = u32::MAX;

/// The `next_hop` of a packet that any node may forward.
pub const NO_NEXT_HOP_PREFERENCE: u8 = 0;

/// The `relay_node` of a packet whose relayer is not recorded.
pub const NO_RELAY_NODE: u8 = 0;

/// The sender of a packet; a packet without one comes from this node.
pub open spec fn sender_of(p: MeshPacketView, our_node_num: NodeNum) -> NodeNum {
    if p.from == 0 {
        our_node_num
    } else {
        p.from
    }
}

/// The sender of a packet; a packet without one comes from this node.
pub fn get_from(packet: &MeshPacket, our_node_num: NodeNum) -> (r: NodeNum)
    ensures
        r == sender_of(packet@, our_node_num),
{
    if packet.from == 0 {
        our_node_num
    } else {
        packet.from
    }
}

/// Whether a packet comes from this node.
pub fn is_from_us(packet: &MeshPacket, our_node_num: NodeNum) -> (r: bool)
    ensures
        r <==> packet@.from == 0 || packet@.from == our_node_num,
        r <==> sender_of(packet@, our_node_num) == our_node_num,
{
    packet.from == 0 || packet.from == our_node_num
}

/// Whether a node number stands for every node.
pub fn is_broadcast(to: NodeNum) -> (r: bool)
    ensures
        r <==> to == NODENUM_BROADCAST,
{
    to == NODENUM_BROADCAST
}

/// What the `hop_start` of a packet is worth.
#[derive(Debug, Clone, Copy, PartialEq, Eq, Structural)]
pub enum HopStartStatus {
    /// It is plausible.
    Valid,
    /// It is zero, and the sender may not have set it.
    MissingOrUnknown,
    /// It is below the hop limit.
    Invalid,
}

/// Whether the payload of a packet shows that its sender sets `hop_start`: it
/// is decoded and has a bitfield.
pub open spec fn sets_hop_start(p: MeshPacketView) -> bool {
    p.payload_variant matches Some(PayloadVariantOf::Decoded(data)) && data.bitfield is Some
}

/// What the `hop_start` of a packet is worth.
pub open spec fn hop_start_status(p: MeshPacketView) -> HopStartStatus {
    if p.hop_start < p.hop_limit {
        HopStartStatus::Invalid
    } else if p.hop_start == 0 && !sets_hop_start(p) {
        HopStartStatus::MissingOrUnknown
    } else {
        HopStartStatus::Valid
    }
}

/// Classifies the `hop_start` of a packet.
pub fn classify_hop_start(packet: &MeshPacket) -> (r: HopStartStatus)
    ensures
        r == hop_start_status(packet@),
{
    if packet.hop_start < packet.hop_limit {
        return HopStartStatus::Invalid;
    }
    if packet.hop_start == 0 {
        if let Some(PayloadVariantOf::Decoded(data)) = &packet.payload_variant {
            if data.bitfield.is_some() {
                return HopStartStatus::Valid;
            }
        }
        return HopStartStatus::MissingOrUnknown;
    }
    HopStartStatus::Valid
}

/// The number of hops that a packet has made, where its header tells.
pub open spec fn hops_made(p: MeshPacketView) -> Option<u8> {
    if hop_start_status(p) == HopStartStatus::Valid {
        Some(((p.hop_start - p.hop_limit) % 256) as u8)
    } else {
        None
    }
}

/// The number of hops that a packet has made, or `None` where its header does
/// not tell.
pub fn hops_away(packet: &MeshPacket) -> (r: Option<u8>)
    ensures
        r == hops_made(packet@),
{
    if packet.hop_start == 0 {
        match &packet.payload_variant {
            Some(PayloadVariantOf::Decoded(data)) => if data.bitfield.is_none() {
                return None;
            },
            _ => return None,
        }
    }
    if packet.hop_start < packet.hop_limit {
        return None;
    }
    Some(((packet.hop_start - packet.hop_limit) % 256) as u8)
}

/// The byte by which a node is known as a relayer: the last byte of its number,
/// with 0xff in place of zero.
pub open spec fn relay_byte(num: NodeNum) -> u8 {
    if num % 256 == 0 {
        0xff
    } else {
        (num % 256) as u8
    }
}

/// The byte by which a node is known as a relayer; never [`NO_RELAY_NODE`].
pub fn last_byte_of_node_num(num: NodeNum) -> (r: u8)
    ensures
        r == relay_byte(num),
        r != NO_RELAY_NODE,
{
    let last: u8 = (num % 256) as u8;
    if last == 0 {
        0xff
    } else {
        last
    }
}

// ---------------------------------------------------------------------------
// Laws
// ---------------------------------------------------------------------------

/// A packet that names its sender comes from that node, whoever receives it, and
/// one that names none comes from the node that asks.
pub proof fn lemma_sender(p: MeshPacketView, our_node_num: NodeNum)
    ensures
        p.from != 0 ==> sender_of(p, our_node_num) == p.from,
        p.from == 0 ==> sender_of(p, our_node_num) == our_node_num,
{
}

/// The hops of a packet are told if and only if its hop limit did not grow and it
/// started with hops to go or shows that its sender sets `hop_start`. They are then
/// what the hop limit fell by, in one byte.
pub proof fn lemma_hops_made(p: MeshPacketView)
    ensures
        hops_made(p) is Some <==> p.hop_limit <= p.hop_start && (p.hop_start > 0 || (
        p.payload_variant matches Some(PayloadVariantOf::Decoded(d)) && d.bitfield is Some)),
        hops_made(p) matches Some(h) ==> h as int == (p.hop_start - p.hop_limit) % 256,
{
}

/// A relayer that takes one from the hop limit adds one to the hops, up to what a
/// byte can tell, and changes nothing in whether they are told.
pub proof fn lemma_hop_counted(p: MeshPacketView, q: MeshPacketView)
    requires
        0 < p.hop_limit <= p.hop_start,
        p.hop_start - p.hop_limit < 255,
        q.hop_start == p.hop_start,
        q.hop_limit == p.hop_limit - 1,
    ensures
        hops_made(p) matches Some(h) && hops_made(q) == Some((h + 1) as u8),
{
}

/// A hop limit above `hop_start` is refused whatever the payload, a `hop_start` of
/// zero is trusted only with a bitfield, and any other is trusted.
pub proof fn lemma_hop_start_status(p: MeshPacketView)
    ensures
        hop_start_status(p) == HopStartStatus::Invalid <==> p.hop_start < p.hop_limit,
        hop_start_status(p) == HopStartStatus::MissingOrUnknown <==> p.hop_start == 0
            && p.hop_limit == 0 && !(p.payload_variant matches Some(PayloadVariantOf::Decoded(d))
            && d.bitfield is Some),
        p.hop_start > 0 && p.hop_limit <= p.hop_start ==> hop_start_status(p)
            == HopStartStatus::Valid,
{
}

/// Two nodes are known by the same byte if the last bytes of their numbers agree,
/// and that byte is never zero: 0xff stands for it, and every other is itself.
pub proof fn lemma_relay_byte(a: NodeNum, b: NodeNum)
    ensures
        relay_byte(a) != 0,
        a % 256 == b % 256 ==> relay_byte(a) == relay_byte(b),
        a % 256 != 0 ==> relay_byte(a) as int == a % 256,
        a % 256 == 0 ==> relay_byte(a) == 255,
{
}

} // verus!
