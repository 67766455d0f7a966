//! The node info module.
//!
//! Takes in what other nodes say of themselves, as updates for the node
//! database, and answers with what this node says of itself. A node that asks
//! again too soon gets no answer.

use crate::mesh::{self, get_from, is_from_us, NodeNum};
use crate::message::{self, decode, Message};
use crate::module::{Call, MeshModule, ModuleContext, ProcessMessage};
use crate::proto::node::{User, UserOf, UserView};
use crate::proto::packet::{
    Data, DataOf, DataView, MeshPacket, MeshPacketOf, MeshPacketView, PayloadVariantOf,
};
use crate::proto::ports::PORT_NODE_INFO;
use crate::text::{self, hex_string};
use std::collections::BTreeMap;
use vstd::prelude::*;
use vstd::string::StringExecFns;

verus! {

broadcast use vstd::std_specs::btree::group_btree_axioms;

/// For how long a node that asks again gets no answer, in seconds: twelve
/// hours.
pub const DEFAULT_REPLY_SUPPRESS_SECS: u32 = 43200;

/// The usual number of nodes whose last request is remembered.
pub const DEFAULT_LAST_SEEN_CAPACITY: usize = 80;

/// What is to be recorded of a node, over the type `U` of users.
#[verifier::ext_equal]
#[derive(Debug, PartialEq)]
pub struct NodeUserUpdateOf<U> {
    /// The node.
    pub num: NodeNum,
    /// Who it is.
    pub user: U,
    /// The channel that it said so on.
    pub channel: u32,
}

/// What a node told of itself.
pub type NodeUserUpdate = NodeUserUpdateOf<User>;

/// The model of a [`NodeUserUpdate`].
pub type NodeUserUpdateView = NodeUserUpdateOf<UserView>;

impl View for NodeUserUpdateOf<User> {
    type V = NodeUserUpdateView;

    open spec fn view(&self) -> NodeUserUpdateView {
        NodeUserUpdateOf { num: self.num, user: self.user@, channel: self.channel }
    }
}

impl Clone for NodeUserUpdateOf<User> {
    fn clone(&self) -> (r: Self)
        ensures
            r@ == self@,
    {
        NodeUserUpdateOf { num: self.num, user: self.user.clone(), channel: self.channel }
    }
}

/// The id of a node: an exclamation mark and its number in eight hexadecimal
/// digits.
pub open spec fn user_id(num: NodeNum) -> Seq<char> {
    "!"@ + text::hex(num as nat, 8)
}

/// Formats the id of a node.
pub fn format_user_id(num: NodeNum) -> (r: String)
    ensures
        r@ == user_id(num),
{
    let mut r = String::from_str("!");
    r.append(hex_string(num, 8).as_str());
    r
}

// ---------------------------------------------------------------------------
// The memory of requests
// ---------------------------------------------------------------------------

/// Whether `k` is the node whose last request is the oldest; of several, the
/// one with the least number.
pub open spec fn is_oldest(seen: Map<NodeNum, u32>, k: NodeNum) -> bool {
    seen.contains_key(k) && forall|j: NodeNum|
        #[trigger] seen.contains_key(j) ==> seen[k] < seen[j] || (seen[k] == seen[j] && k <= j)
}

/// The node whose last request is the oldest.
pub open spec fn oldest(seen: Map<NodeNum, u32>) -> NodeNum {
    choose|k: NodeNum| is_oldest(seen, k)
}

/// The memory after the oldest requests were forgotten, one after the other,
/// until there are no more than `cap`.
pub open spec fn pruned(seen: Map<NodeNum, u32>, cap: nat) -> Map<NodeNum, u32>
    decreases seen.len(),
{
    if seen.len() <= cap || !seen.dom().finite() || !is_oldest(seen, oldest(seen)) {
        seen
    } else {
        pruned(seen.remove(oldest(seen)), cap)
    }
}

proof fn lemma_oldest_unique(seen: Map<NodeNum, u32>, k: NodeNum)
    requires
        is_oldest(seen, k),
    ensures
        oldest(seen) == k,
{
    let o = oldest(seen);
    assert(is_oldest(seen, o));
    assert(seen.contains_key(o) && seen.contains_key(k));
}

/// Forgetting keeps the newest requests: no more than `cap` are left, none is
/// changed, and every forgotten one is at least as old as every one that is
/// left.
pub proof fn lemma_pruned(seen: Map<NodeNum, u32>, cap: nat)
    requires
        seen.dom().finite(),
        cap >= 1,
    ensures
        pruned(seen, cap).len() <= cap,
        pruned(seen, cap).dom().finite(),
        pruned(seen, cap).submap_of(seen),
        forall|k: NodeNum, j: NodeNum|
            #[trigger] seen.contains_key(k) && !pruned(seen, cap).contains_key(k)
                && #[trigger] pruned(seen, cap).contains_key(j) ==> seen[k] <= seen[j],
        seen.len() <= cap ==> pruned(seen, cap) == seen,
    decreases seen.len(),
{
    if seen.len() > cap {
        lemma_oldest_exists(seen);
        let o = oldest(seen);
        let rest = seen.remove(o);
        lemma_pruned(rest, cap);
        let left = pruned(rest, cap);
        assert forall|k: NodeNum, j: NodeNum|
            #[trigger] seen.contains_key(k) && !left.contains_key(k)
                && #[trigger] left.contains_key(j) implies seen[k] <= seen[j] by {
            assert(rest.contains_key(j));
            if k == o {
                assert(seen.contains_key(j));
            } else {
                assert(rest.contains_key(k));
            }
        }
    }
}

proof fn lemma_oldest_exists(seen: Map<NodeNum, u32>)
    requires
        seen.dom().finite(),
        seen.len() > 0,
    ensures
        is_oldest(seen, oldest(seen)),
    decreases seen.len(),
{
    let k = seen.dom().choose();
    assert(seen.contains_key(k));
    let rest = seen.remove(k);
    if rest.len() == 0 {
        assert forall|j: NodeNum| #[trigger] seen.contains_key(j) implies j == k by {
            if j != k {
                assert(rest.dom().contains(j));
                assert(rest.dom().remove(j).len() < rest.dom().len());
            }
        }
        assert(is_oldest(seen, k));
    } else {
        lemma_oldest_exists(rest);
        let o = oldest(rest);
        assert(rest.contains_key(o));
        let best = if seen[k] < seen[o] || (seen[k] == seen[o] && k <= o) {
            k
        } else {
            o
        };
        assert forall|j: NodeNum| #[trigger] seen.contains_key(j) implies seen[best] < seen[j] || (
        seen[best] == seen[j] && best <= j) by {
            if j != k {
                assert(rest.contains_key(j));
            }
        }
        assert(is_oldest(seen, best));
    }
}

fn find_oldest(seen: &BTreeMap<NodeNum, u32>) -> (r: Option<NodeNum>)
    ensures
        r is Some <==> seen@.len() > 0,
        r matches Some(k) ==> is_oldest(seen@, k) && k == oldest(seen@),
{
    let mut best: Option<(NodeNum, u32)> = None;
    for (k, t) in it: seen.iter()
        invariant
            best is Some <==> it.index() > 0,
            best matches Some((b, bt)) ==> {
                &&& seen@.contains_key(b)
                &&& seen@[b] == bt
                &&& forall|i: int|
                    0 <= i < it.index() ==> bt < *(#[trigger] it.seq()[i]).1 || (bt
                        == *it.seq()[i].1 && b <= *it.seq()[i].0)
            },
    {
        assert(seen@.contains_key(*k) && seen@[*k] == *t);
        let better = match best {
            Some((b, bt)) => *t < bt || (*t == bt && *k < b),
            None => true,
        };
        if better {
            best = Some((*k, *t));
        }
    }
    match best {
        Some((b, _)) => {
            proof {
                assert(is_oldest(seen@, b));
                lemma_oldest_unique(seen@, b);
            }
            Some(b)
        },
        None => None,
    }
}

// ---------------------------------------------------------------------------
// The module
// ---------------------------------------------------------------------------

/// The node info module.
pub struct NodeInfoModule {
    our_node_num: NodeNum,
    owner: User,
    /// When each node last asked.
    pub last_node_info_seen: BTreeMap<NodeNum, u32>,
    pending_updates: Vec<NodeUserUpdate>,
    suppress_reply_for_current_request: bool,
    last_reply_suppressed: bool,
    suppress_secs: u32,
    last_node_info_seen_capacity: usize,
    calls: Ghost<Seq<Call>>,
}

/// The node info module as its contracts see it.
#[verifier::ext_equal]
pub struct NodeInfoModuleView {
    pub our_node_num: NodeNum,
    pub owner: UserView,
    /// When each node last asked.
    pub last_seen: Map<NodeNum, u32>,
    pub last_seen_capacity: usize,
    pub pending_updates: Seq<NodeUserUpdateView>,
    /// The request at hand gets no answer.
    pub suppress_reply: bool,
    pub last_reply_suppressed: bool,
    pub suppress_secs: u32,
}

impl View for NodeInfoModule {
    type V = NodeInfoModuleView;

    closed spec fn view(&self) -> NodeInfoModuleView {
        NodeInfoModuleView {
            our_node_num: self.our_node_num,
            owner: self.owner@,
            last_seen: self.last_node_info_seen@,
            last_seen_capacity: self.last_node_info_seen_capacity,
            pending_updates: message::views(self.pending_updates@),
            suppress_reply: self.suppress_reply_for_current_request,
            last_reply_suppressed: self.last_reply_suppressed,
            suppress_secs: self.suppress_secs,
        }
    }
}

/// What this node says of itself: its owner under its own id, and without the
/// public key if the owner is licensed.
pub open spec fn rendered_owner(our_node_num: NodeNum, owner: UserView) -> UserView {
    UserOf {
        id: user_id(our_node_num),
        public_key: if owner.is_licensed {
            Seq::empty()
        } else {
            owner.public_key
        },
        ..owner
    }
}

/// Whether a packet is about who a node is.
pub open spec fn is_node_info(p: MeshPacketView) -> bool {
    p.payload_variant matches Some(PayloadVariantOf::Decoded(d)) && d.portnum == PORT_NODE_INFO
}

/// The user that a packet of another node tells of, if it does.
pub open spec fn user_in(m: NodeInfoModuleView, p: MeshPacketView) -> Option<UserView> {
    match p.payload_variant {
        Some(PayloadVariantOf::Decoded(d)) if p.from != m.our_node_num => message::decoded::<User>(
            d.payload,
        ),
        _ => None,
    }
}

/// Whether a packet asks this node who it is, on behalf of another node.
pub open spec fn asks_who(m: NodeInfoModuleView, p: MeshPacketView) -> bool {
    &&& p.payload_variant matches Some(PayloadVariantOf::Decoded(d)) && d.want_response
    &&& mesh::sender_of(p, m.our_node_num) != m.our_node_num
}

/// Whether a node asked within the time in which it gets no second answer. A
/// clock that went back counts as no time.
pub open spec fn asked_too_soon(m: NodeInfoModuleView, num: NodeNum, now: u32) -> bool {
    m.last_seen.contains_key(num) && (if now >= m.last_seen[num] {
        now - m.last_seen[num]
    } else {
        0
    }) < m.suppress_secs
}

/// The module after a packet that tells of a user, without the update.
pub open spec fn after_request(m: NodeInfoModuleView, p: MeshPacketView) -> NodeInfoModuleView {
    let sender = mesh::sender_of(p, m.our_node_num);
    if asks_who(m, p) {
        NodeInfoModuleView {
            suppress_reply: asked_too_soon(m, sender, p.rx_time),
            last_seen: pruned(m.last_seen.insert(sender, p.rx_time), m.last_seen_capacity as nat),
            ..m
        }
    } else {
        NodeInfoModuleView { suppress_reply: false, ..m }
    }
}

/// The module after a packet. A user that is licensed where the owner is not,
/// or the other way round, is not recorded.
pub open spec fn after_packet(m: NodeInfoModuleView, p: MeshPacketView) -> NodeInfoModuleView {
    match user_in(m, p) {
        None => NodeInfoModuleView { suppress_reply: false, ..m },
        Some(user) => {
            let num = mesh::sender_of(p, m.our_node_num);
            let after = after_request(m, p);
            if user.is_licensed != m.owner.is_licensed {
                after
            } else {
                NodeInfoModuleView {
                    pending_updates: after.pending_updates.push(
                        NodeUserUpdateOf {
                            num,
                            user: UserOf { id: user_id(num), ..user },
                            channel: p.channel,
                        },
                    ),
                    ..after
                }
            }
        },
    }
}

/// What the module makes of a packet: it stops one about a user whose licence
/// does not fit.
pub open spec fn decision(m: NodeInfoModuleView, p: MeshPacketView) -> ProcessMessage {
    match user_in(m, p) {
        Some(user) if user.is_licensed != m.owner.is_licensed => ProcessMessage::Stop,
        _ => ProcessMessage::Continue,
    }
}

/// The reply that tells who this node is.
pub open spec fn owner_reply(m: NodeInfoModuleView) -> MeshPacketView {
    MeshPacketOf {
        payload_variant: Some(
            PayloadVariantOf::Decoded(
                DataOf {
                    portnum: PORT_NODE_INFO,
                    payload: message::encoded::<User>(rendered_owner(m.our_node_num, m.owner)),
                    ..Data::blank()
                },
            ),
        ),
        ..MeshPacket::blank()
    }
}

/// The reply that the module gives: who this node is, unless the reply is suppressed.
pub open spec fn reply_of(m: NodeInfoModuleView) -> Option<MeshPacketView> {
    if m.suppress_reply {
        None
    } else {
        Some(owner_reply(m))
    }
}

/// The module after it was asked for a reply.
pub open spec fn after_reply(m: NodeInfoModuleView) -> NodeInfoModuleView {
    NodeInfoModuleView {
        suppress_reply: false,
        last_reply_suppressed: m.suppress_reply,
        ..m
    }
}

impl NodeInfoModule {
    /// A module for this node and its owner.
    pub fn new(our_node_num: NodeNum, owner: User) -> (m: Self)
        ensures
            m@ == (NodeInfoModuleView {
                our_node_num,
                owner: owner@,
                last_seen: Map::empty(),
                last_seen_capacity: DEFAULT_LAST_SEEN_CAPACITY,
                pending_updates: Seq::empty(),
                suppress_reply: false,
                last_reply_suppressed: false,
                suppress_secs: DEFAULT_REPLY_SUPPRESS_SECS,
            }),
            m.calls() == Seq::<Call>::empty(),
    {
        let m = NodeInfoModule {
            our_node_num,
            owner,
            last_node_info_seen: BTreeMap::new(),
            pending_updates: Vec::new(),
            suppress_reply_for_current_request: false,
            last_reply_suppressed: false,
            suppress_secs: DEFAULT_REPLY_SUPPRESS_SECS,
            last_node_info_seen_capacity: DEFAULT_LAST_SEEN_CAPACITY,
            calls: Ghost(Seq::empty()),
        };
        assert(m@.pending_updates =~= Seq::empty());
        m
    }

    /// Sets for how long a node that asks again gets no answer.
    pub fn set_suppress_secs(&mut self, secs: u32) -> (r: &mut Self)
        ensures
            r@ == (NodeInfoModuleView { suppress_secs: secs, ..old(self)@ }),
            r.calls() == old(self).calls(),
            *final(r) == *final(self),
    {
        self.suppress_secs = secs;
        self
    }

    /// Sets the number of nodes whose last request is remembered, at least one.
    pub fn set_last_seen_capacity(&mut self, cap: usize) -> (r: &mut Self)
        ensures
            r@ == (NodeInfoModuleView {
                last_seen_capacity: if cap < 1 {
                    1
                } else {
                    cap
                },
                last_seen: pruned(
                    old(self)@.last_seen,
                    if cap < 1 {
                        1
                    } else {
                        cap as nat
                    },
                ),
                ..old(self)@
            }),
            r.calls() == old(self).calls(),
            *final(r) == *final(self),
    {
        self.last_node_info_seen_capacity = if cap < 1 {
            1
        } else {
            cap
        };
        self.prune_last_seen_cache();
        self
    }

    /// Sets the owner.
    pub fn set_owner(&mut self, owner: User) -> (r: &mut Self)
        ensures
            r@ == (NodeInfoModuleView { owner: owner@, ..old(self)@ }),
            r.calls() == old(self).calls(),
            *final(r) == *final(self),
    {
        self.owner = owner;
        self
    }

    /// What this node says of itself.
    pub fn owner(&self) -> (r: User)
        ensures
            r@ == rendered_owner(self@.our_node_num, self@.owner),
    {
        self.render_owner()
    }

    /// Takes the updates that were recorded.
    pub fn take_pending_updates(&mut self) -> (r: Vec<NodeUserUpdate>)
        ensures
            message::views(r@) == old(self)@.pending_updates,
            final(self)@ == (NodeInfoModuleView { pending_updates: Seq::empty(), ..old(self)@ }),
            final(self).calls() == old(self).calls(),
    {
        let mut r: Vec<NodeUserUpdate> = Vec::new();
        std::mem::swap(&mut r, &mut self.pending_updates);
        assert(self@.pending_updates =~= Seq::empty());
        r
    }

    /// Whether the last request got no answer because its sender asked again
    /// too soon.
    pub fn last_reply_was_suppressed(&self) -> (r: bool)
        ensures
            r == self@.last_reply_suppressed,
    {
        self.last_reply_suppressed
    }

    fn render_owner(&self) -> (r: User)
        ensures
            r@ == rendered_owner(self@.our_node_num, self@.owner),
    {
        let mut u = self.owner.clone();
        u.id = format_user_id(self.our_node_num);
        if u.is_licensed {
            u.public_key = Vec::new();
        }
        assert(u@ =~= rendered_owner(self@.our_node_num, self@.owner));
        u
    }

    fn prune_last_seen_cache(&mut self)
        ensures
            final(self)@ == (NodeInfoModuleView {
                last_seen: pruned(old(self)@.last_seen, old(self)@.last_seen_capacity as nat),
                ..old(self)@
            }),
            final(self).calls == old(self).calls,
    {
        let ghost cap = self.last_node_info_seen_capacity as nat;
        while self.last_node_info_seen.len() > self.last_node_info_seen_capacity
            invariant
                cap == self.last_node_info_seen_capacity,
                pruned(old(self)@.last_seen, cap) == pruned(self@.last_seen, cap),
                self@ == (NodeInfoModuleView { last_seen: self@.last_seen, ..old(self)@ }),
                self.calls == old(self).calls,
            decreases self@.last_seen.len(),
        {
            if let Some(k) = find_oldest(&self.last_node_info_seen) {
                self.last_node_info_seen.remove(&k);
            }
        }
    }

    /// Handles a packet, beside the log.
    fn handle(&mut self, packet: &MeshPacket) -> (r: ProcessMessage)
        ensures
            r == decision(old(self)@, packet@),
            final(self)@ == after_packet(old(self)@, packet@),
            final(self).calls == old(self).calls,
    {
        self.suppress_reply_for_current_request = false;
        if packet.from == self.our_node_num {
            return ProcessMessage::Continue;
        }
        let data = match &packet.payload_variant {
            Some(PayloadVariantOf::Decoded(d)) => d,
            _ => return ProcessMessage::Continue,
        };
        let mut user = match decode::<User>(&data.payload) {
            Ok(u) => u,
            Err(_) => return ProcessMessage::Continue,
        };
        let num: NodeNum = get_from(packet, self.our_node_num);
        if data.want_response && !is_from_us(packet, self.our_node_num) {
            let now: u32 = packet.rx_time;
            if let Some(last) = self.last_node_info_seen.get(&num) {
                let since: u32 = now.saturating_sub(*last);
                if since < self.suppress_secs {
                    self.suppress_reply_for_current_request = true;
                }
            }
            self.last_node_info_seen.insert(num, now);
            self.prune_last_seen_cache();
        }
        assert(self@ =~= after_request(old(self)@, packet@));
        if user.is_licensed != self.owner.is_licensed {
            return ProcessMessage::Stop;
        }
        user.id = format_user_id(num);
        let update = NodeUserUpdateOf { num, user, channel: packet.channel };
        let ghost before = self@.pending_updates;
        self.pending_updates.push(update);
        assert(self@.pending_updates =~= before.push(update@));
        ProcessMessage::Continue
    }

    /// Replies, beside the log.
    fn reply(&mut self) -> (r: Option<MeshPacket>)
        ensures
            message::opt_view(r) == reply_of(old(self)@),
            final(self)@ == after_reply(old(self)@),
            final(self).calls == old(self).calls,
    {
        if self.suppress_reply_for_current_request {
            self.suppress_reply_for_current_request = false;
            self.last_reply_suppressed = true;
            return None;
        }
        self.last_reply_suppressed = false;
        let payload = self.render_owner().encode_to_vec();
        let data = DataOf { portnum: PORT_NODE_INFO, payload, ..Data::new_blank() };
        let reply = MeshPacketOf {
            payload_variant: Some(PayloadVariantOf::Decoded(data)),
            ..MeshPacket::new_blank()
        };
        Some(reply)
    }
}

impl MeshModule for NodeInfoModule {
    open spec fn promiscuous(&self) -> bool {
        true
    }

    open spec fn loopback(&self) -> bool {
        false
    }

    open spec fn encrypted(&self) -> bool {
        false
    }

    open spec fn bound(&self) -> Option<Seq<char>> {
        None
    }

    open spec fn wants(&self, p: MeshPacketView) -> bool {
        is_node_info(p)
    }

    closed spec fn calls(&self) -> Seq<Call> {
        self.calls@
    }

    fn name(&self) -> (r: &str)
        ensures
            r@ == "nodeinfo"@,
    {
        "nodeinfo"
    }

    fn is_promiscuous(&self) -> (r: bool) {
        true
    }

    fn loopback_ok(&self) -> (r: bool) {
        false
    }

    fn encrypted_ok(&self) -> (r: bool) {
        false
    }

    fn bound_channel(&self) -> (r: Option<&str>) {
        None
    }

    fn want_packet(&self, packet: &MeshPacket) -> (r: bool) {
        match &packet.payload_variant {
            Some(PayloadVariantOf::Decoded(d)) => d.portnum == PORT_NODE_INFO,
            _ => false,
        }
    }

    fn handle_received(
        &mut self,
        packet: &MeshPacket,
        ctx: &ModuleContext<'_>,
    ) -> (r: ProcessMessage)
        ensures
            r == decision(old(self)@, packet@),
            final(self)@ == after_packet(old(self)@, packet@),
    {
        let r = self.handle(packet);
        self.calls = Ghost(
            self.calls@.push(Call::Handled { packet: packet@, ctx: ctx@, decision: r }),
        );
        r
    }

    fn alloc_reply(&mut self, request: &MeshPacket) -> (r: Option<MeshPacket>)
        ensures
            message::opt_view(r) == reply_of(old(self)@),
            final(self)@ == after_reply(old(self)@),
    {
        let r = self.reply();
        self.calls = Ghost(
            self.calls@.push(Call::Asked { request: request@, reply: message::opt_view(r) }),
        );
        r
    }
}

// ---------------------------------------------------------------------------
// Laws
// ---------------------------------------------------------------------------

proof fn lemma_pruned_submap(seen: Map<NodeNum, u32>, cap: nat)
    ensures
        pruned(seen, cap).submap_of(seen),
    decreases seen.len(),
{
    if !(seen.len() <= cap || !seen.dom().finite() || !is_oldest(seen, oldest(seen))) {
        lemma_pruned_submap(seen.remove(oldest(seen)), cap);
    }
}

/// A node that is not remembered is told who this node is.
pub proof fn lemma_first_request_answered(m: NodeInfoModuleView, p: MeshPacketView)
    requires
        !m.last_seen.contains_key(mesh::sender_of(p, m.our_node_num)),
    ensures
        reply_of(after_packet(m, p)) == Some(owner_reply(m)),
{
}

/// A node that asks a second time gets no answer if and only if less than the
/// suppression time has passed since it asked first. A clock that went back
/// counts as no time. The first request must not have been pushed out of the
/// memory at once by newer ones.
pub proof fn lemma_second_request(m: NodeInfoModuleView, p: MeshPacketView, q: MeshPacketView)
    requires
        user_in(m, p) is Some,
        user_in(m, q) is Some,
        asks_who(m, p),
        asks_who(m, q),
        p.from == q.from,
        after_packet(m, p).last_seen.contains_key(p.from),
    ensures
        reply_of(after_packet(after_reply(after_packet(m, p)), q)) is None <==> q.rx_time
            - p.rx_time < m.suppress_secs && m.suppress_secs > 0,
{
    let seen = m.last_seen.insert(p.from, p.rx_time);
    let m1 = after_reply(after_packet(m, p));
    lemma_pruned_submap(seen, m.last_seen_capacity as nat);
    assert(mesh::sender_of(p, m.our_node_num) == p.from);
    assert(m1.last_seen == pruned(seen, m.last_seen_capacity as nat));
    assert(m1.last_seen.dom().contains(p.from) && seen.dom().contains(p.from));
    assert(m1.last_seen[p.from] == seen[p.from]);
    assert(user_in(m1, q) == user_in(m, q));
}

/// The reply tells the owner under the id of this node: its payload decodes to
/// that.
pub proof fn lemma_reply_decodes(m: NodeInfoModuleView)
    requires
        message::encoded::<User>(rendered_owner(m.our_node_num, m.owner)).len() <= u64::MAX,
    ensures
        owner_reply(m).payload_variant matches Some(PayloadVariantOf::Decoded(d)) && d.portnum
            == PORT_NODE_INFO && message::decoded::<User>(d.payload) == Some(
            rendered_owner(m.our_node_num, m.owner),
        ),
{
    message::lemma_decode_of_encode::<User>(rendered_owner(m.our_node_num, m.owner));
}

/// Which packets the module sees: decoded ones on the port for node info, for whichever
/// node they are and on whichever channel, but none of this node itself.
pub proof fn lemma_what_is_seen(m: NodeInfoModule, p: MeshPacketView)
    ensures
        m.wants(p) <==> (p.payload_variant matches Some(PayloadVariantOf::Decoded(d)) && d.portnum
            == 4),
        m.promiscuous(),
        !m.loopback(),
        !m.encrypted(),
        m.bound() is None,
{
}

/// The id of a node: an exclamation mark and the eight hexadecimal digits of its number,
/// so no two nodes share one.
pub proof fn lemma_user_id(a: NodeNum, b: NodeNum)
    ensures
        user_id(a).len() == 9,
        user_id(a)[0] == '!',
        user_id(a).skip(1) == text::hex(a as nat, 8),
        user_id(a) == user_id(b) ==> a == b,
{
    reveal_strlit("!");
    text::lemma_hex(a as nat, 8);
    text::lemma_hex(b as nat, 8);
    assert(user_id(a).skip(1) =~= text::hex(a as nat, 8));
    assert(user_id(b).skip(1) =~= text::hex(b as nat, 8));
    if user_id(a) == user_id(b) {
        reveal_with_fuel(hex_bound, 9);
        lemma_hex_unique(a as nat, b as nat, 8);
    }
}

proof fn lemma_hex_unique(a: nat, b: nat, width: nat)
    requires
        text::hex(a, width) == text::hex(b, width),
        width <= 8,
        a < hex_bound(width),
        b < hex_bound(width),
    ensures
        a == b,
    decreases width,
{
    if width > 0 {
        text::lemma_hex(a, width);
        text::lemma_hex(b, width);
        lemma_hex_unique(a / 16, b / 16, (width - 1) as nat);
    }
}

spec fn hex_bound(width: nat) -> nat
    decreases width,
{
    if width == 0 {
        1
    } else {
        16 * hex_bound((width - 1) as nat)
    }
}

/// What this node says of itself is what its owner is, under the id of this node whatever
/// id the owner was set with, and without the public key exactly if the owner is licensed.
pub proof fn lemma_rendered_owner(our_node_num: NodeNum, owner: UserView)
    ensures
        ({
            let r = rendered_owner(our_node_num, owner);
            &&& r.id == user_id(our_node_num)
            &&& owner.is_licensed ==> r.public_key.len() == 0
            &&& !owner.is_licensed ==> r.public_key == owner.public_key
            &&& (UserOf { id: owner.id, public_key: owner.public_key, ..r }) == owner
        }),
{
}

/// What a node says of itself is recorded once, as it said it, under the id of that node
/// and with the channel that it said it on, if it is licensed exactly as the owner is.
/// Later modules then see the packet too.
pub proof fn lemma_user_recorded(m: NodeInfoModuleView, p: MeshPacketView, d: DataView, u: UserView)
    requires
        p.payload_variant == Some(PayloadVariantOf::<Seq<u8>>::Decoded(d)),
        p.from != m.our_node_num,
        message::decoded::<User>(d.payload) == Some(u),
        u.is_licensed == m.owner.is_licensed,
    ensures
        decision(m, p) == ProcessMessage::Continue,
        after_packet(m, p).pending_updates.len() == m.pending_updates.len() + 1,
        after_packet(m, p).pending_updates.drop_last() == m.pending_updates,
        ({
            let update = after_packet(m, p).pending_updates.last();
            &&& p.from != 0 ==> update.num == p.from
            &&& p.from == 0 ==> update.num == m.our_node_num
            &&& update.channel == p.channel
            &&& update.user.id == user_id(update.num)
            &&& (UserOf { id: u.id, ..update.user }) == u
        }),
{
    assert(after_packet(m, p).pending_updates.drop_last() =~= m.pending_updates);
}

/// What a node says of itself is not recorded if it is licensed and the owner is not, or
/// the other way round. No later module then sees the packet.
pub proof fn lemma_licence_refused(
    m: NodeInfoModuleView,
    p: MeshPacketView,
    d: DataView,
    u: UserView,
)
    requires
        p.payload_variant == Some(PayloadVariantOf::<Seq<u8>>::Decoded(d)),
        p.from != m.our_node_num,
        message::decoded::<User>(d.payload) == Some(u),
        u.is_licensed != m.owner.is_licensed,
    ensures
        decision(m, p) == ProcessMessage::Stop,
        after_packet(m, p).pending_updates == m.pending_updates,
{
}

/// A packet of this node, one that is not decoded, and one whose payload tells of no user
/// change nothing, and leave the next reply free.
pub proof fn lemma_nothing_told(m: NodeInfoModuleView, p: MeshPacketView)
    requires
        p.from == m.our_node_num || !(p.payload_variant matches Some(PayloadVariantOf::Decoded(d))
            && message::decoded::<User>(d.payload) is Some),
    ensures
        decision(m, p) == ProcessMessage::Continue,
        !after_packet(m, p).suppress_reply,
        (NodeInfoModuleView { suppress_reply: m.suppress_reply, ..after_packet(m, p) }) == m,
{
}

/// A packet never changes who this node is, how long it keeps silent and how much it
/// remembers, nor what is known of the last reply.
pub proof fn lemma_packet_keeps(m: NodeInfoModuleView, p: MeshPacketView)
    ensures
        after_packet(m, p).our_node_num == m.our_node_num,
        after_packet(m, p).owner == m.owner,
        after_packet(m, p).suppress_secs == m.suppress_secs,
        after_packet(m, p).last_seen_capacity == m.last_seen_capacity,
        after_packet(m, p).last_reply_suppressed == m.last_reply_suppressed,
{
}

/// When a request gets no answer: exactly if the node that asks is remembered and less than
/// the suppression time has passed since it last asked, no time where the clock went back.
/// Whether the user that it tells of is recorded does not matter.
pub proof fn lemma_request_suppressed(
    m: NodeInfoModuleView,
    p: MeshPacketView,
    d: DataView,
)
    requires
        p.payload_variant == Some(PayloadVariantOf::<Seq<u8>>::Decoded(d)),
        d.want_response,
        p.from != 0,
        p.from != m.our_node_num,
        message::decoded::<User>(d.payload) is Some,
    ensures
        reply_of(after_packet(m, p)) is None <==> m.last_seen.contains_key(p.from)
            && m.suppress_secs > 0 && p.rx_time - m.last_seen[p.from] < m.suppress_secs,
{
}

/// A packet that does not ask, or that names no sender, is not counted as a request: the
/// memory of requests stays, and a reply is not held back.
pub proof fn lemma_no_request(m: NodeInfoModuleView, p: MeshPacketView)
    requires
        p.from == 0 || p.from == m.our_node_num || !(p.payload_variant matches Some(
            PayloadVariantOf::Decoded(d),
        ) && d.want_response),
    ensures
        after_packet(m, p).last_seen == m.last_seen,
        !after_packet(m, p).suppress_reply,
        reply_of(after_packet(m, p)) is Some,
{
}

/// A request is remembered with its time, in place of an earlier one of the same node and
/// answered or not; the others stay while there is room. Where there is none, those that
/// are forgotten are the oldest, and no more than needed are.
pub proof fn lemma_request_remembered(
    m: NodeInfoModuleView,
    p: MeshPacketView,
    d: DataView,
)
    requires
        p.payload_variant == Some(PayloadVariantOf::<Seq<u8>>::Decoded(d)),
        d.want_response,
        p.from != 0,
        p.from != m.our_node_num,
        message::decoded::<User>(d.payload) is Some,
        m.last_seen.dom().finite(),
        m.last_seen_capacity >= 1,
    ensures
        ({
            let noted = m.last_seen.insert(p.from, p.rx_time);
            let after = after_packet(m, p).last_seen;
            &&& noted.len() <= m.last_seen_capacity ==> after == noted
            &&& noted.len() > m.last_seen_capacity ==> after.len() == m.last_seen_capacity
            &&& after.submap_of(noted)
            &&& forall|k: NodeNum, j: NodeNum|
                #[trigger] noted.contains_key(k) && !after.contains_key(k)
                    && #[trigger] after.contains_key(j) ==> noted[k] <= noted[j]
        }),
{
    let noted = m.last_seen.insert(p.from, p.rx_time);
    lemma_pruned(noted, m.last_seen_capacity as nat);
    if noted.len() > m.last_seen_capacity {
        lemma_pruned_len(noted, m.last_seen_capacity as nat);
    }
}

proof fn lemma_pruned_len(seen: Map<NodeNum, u32>, cap: nat)
    requires
        seen.dom().finite(),
        seen.len() >= cap,
    ensures
        pruned(seen, cap).len() == cap,
    decreases seen.len(),
{
    if seen.len() > cap {
        lemma_oldest_exists(seen);
        let o = oldest(seen);
        assert(seen.remove(o).len() == seen.len() - 1);
        lemma_pruned_len(seen.remove(o), cap);
    }
}

/// A reply is given if and only if it is not held back. It is then a decoded packet on the
/// port for node info that asks for nothing, and whether it was held back is reported. The
/// next reply is free again, and nothing else changes.
pub proof fn lemma_reply(m: NodeInfoModuleView)
    ensures
        m.suppress_reply ==> reply_of(m) is None,
        !m.suppress_reply ==> (reply_of(m) matches Some(r) && (r.payload_variant matches Some(
            PayloadVariantOf::Decoded(d),
        ) && d.portnum == 4 && d.payload == message::encoded::<User>(
            rendered_owner(m.our_node_num, m.owner),
        ) && !d.want_response && d.bitfield is None && d.request_id == 0) && r.from == 0 && r.to
            == 0 && r.id == 0 && !r.want_ack),
        after_reply(m).last_reply_suppressed == m.suppress_reply,
        !after_reply(m).suppress_reply,
        (NodeInfoModuleView {
            suppress_reply: m.suppress_reply,
            last_reply_suppressed: m.last_reply_suppressed,
            ..after_reply(m)
        }) == m,
{
}

} // verus!
