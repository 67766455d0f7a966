//! The table of known nodes.
//!
//! The table is bounded. Where it is full, a new node takes the place of the
//! one that was heard the longest ago, first among the nodes without a public
//! key; this node itself, favourites, ignored nodes and nodes whose key was
//! verified by hand are never evicted.

use crate::mesh::{self, hops_away, is_broadcast, NodeNum, NODENUM_BROADCAST};
use crate::message::{self, Message};
use crate::proto::node::{
    NodeDatabase, NodeDatabaseOf, NodeInfoLite, NodeInfoLiteOf, NodeInfoLiteView,
};
use crate::proto::packet::{MeshPacket, MeshPacketView, PayloadVariantOf};
use crate::text;
use vstd::prelude::*;
use vstd::string::StringExecFns;

verus! {

/// The usual number of nodes.
pub const DEFAULT_CAPACITY: usize = 80;

/// The flag of a node whose key was verified by hand.
pub const BITFIELD_IS_KEY_MANUALLY_VERIFIED: u32 = 1;

/// The flag of a node that is muted.
pub const BITFIELD_IS_MUTED: u32 = 2;

/// The version that a stored table is marked with.
pub const NODE_DATABASE_VERSION: u32 = 24;

/// Why a stored table was refused.
#[derive(Debug, Clone, Copy, PartialEq, Eq)]
pub enum NodeDbError {
    /// There are more nodes than the table has room for.
    TooManyNodes { got: usize, max: usize },
    /// Two nodes have this number.
    DuplicateNode(NodeNum),
}

impl NodeDbError {
    /// The error in words.
    pub open spec fn text(self) -> Seq<char> {
        match self {
            NodeDbError::TooManyNodes { got, max } => "node database has "@ + text::decimal(
                got as nat,
            ) + " nodes; capacity is "@ + text::decimal(max as nat),
            NodeDbError::DuplicateNode(n) => "duplicate node num 0x"@ + text::hex(
                n as nat,
                text::hex_len(n as nat),
            ) + " in database"@,
        }
    }

    /// The error in words.
    pub fn describe(&self) -> (r: String)
        ensures
            r@ == self.text(),
    {
        match self {
            NodeDbError::TooManyNodes { got, max } => {
                let mut r = text::number_between(
                    "node database has ",
                    *got as u64,
                    " nodes; capacity is ",
                );
                let room = text::decimal_string(*max as u64);
                r.append(room.as_str());
                r
            },
            NodeDbError::DuplicateNode(n) => {
                let digits = text::short_hex_string(*n);
                text::text_between("duplicate node num 0x", digits.as_str(), " in database")
            },
        }
    }
}

/// The table of known nodes.
#[derive(Debug)]
pub struct NodeDb {
    our_node_num: NodeNum,
    capacity: usize,
    nodes: Vec<NodeInfoLite>,
}

/// The table of known nodes as its contracts see it.
#[verifier::ext_equal]
pub struct NodeDbView {
    pub our_node_num: NodeNum,
    pub capacity: usize,
    pub nodes: Seq<NodeInfoLiteView>,
}

impl View for NodeDb {
    type V = NodeDbView;

    closed spec fn view(&self) -> NodeDbView {
        NodeDbView {
            our_node_num: self.our_node_num,
            capacity: self.capacity,
            nodes: message::views(self.nodes@),
        }
    }
}

/// The first position from `k` on of the node with a number.
pub open spec fn position(nodes: Seq<NodeInfoLiteView>, num: NodeNum, k: nat) -> Option<int>
    decreases nodes.len() - k,
{
    if k >= nodes.len() {
        None
    } else if nodes[k as int].num == num {
        Some(k as int)
    } else {
        position(nodes, num, k + 1)
    }
}

/// Whether a node is never evicted.
pub open spec fn is_pinned(n: NodeInfoLiteView) -> bool {
    n.is_favorite || n.is_ignored || n.bitfield % 2 == 1
}

/// Whether a node has no public key.
pub open spec fn is_boring(n: NodeInfoLiteView) -> bool {
    match n.user {
        Some(u) => u.public_key.len() == 0,
        None => true,
    }
}

/// Whether a node may be evicted; with `boring` set, only if it has no public
/// key.
pub open spec fn is_candidate(n: NodeInfoLiteView, boring: bool) -> bool {
    !is_pinned(n) && (boring ==> is_boring(n))
}

/// The first of the candidates from `start` to `end` that were heard the
/// longest ago.
pub open spec fn oldest(
    nodes: Seq<NodeInfoLiteView>,
    start: nat,
    end: nat,
    boring: bool,
) -> Option<int>
    decreases end,
{
    if end <= start {
        None
    } else {
        let before = oldest(nodes, start, (end - 1) as nat, boring);
        if !is_candidate(nodes[end - 1], boring) {
            before
        } else {
            match before {
                Some(b) if nodes[b].last_heard <= nodes[end - 1].last_heard => before,
                _ => Some(end - 1),
            }
        }
    }
}

impl NodeDbView {
    /// No two nodes share a number, and this node, if it is in the table, comes
    /// first.
    pub open spec fn wf(self) -> bool {
        &&& self.capacity >= 1
        &&& forall|i: int, j: int|
            0 <= i < j < self.nodes.len() ==> (#[trigger] self.nodes[i]).num != (
            #[trigger] self.nodes[j]).num
        &&& forall|i: int|
            0 <= i < self.nodes.len() && (#[trigger] self.nodes[i]).num == self.our_node_num
                ==> i == 0
    }

    /// The entry of a node; the broadcast number has none.
    pub open spec fn entry(self, num: NodeNum) -> Option<NodeInfoLiteView> {
        match position(self.nodes, num, 0) {
            Some(i) if num != NODENUM_BROADCAST => Some(self.nodes[i]),
            _ => None,
        }
    }

    /// The first position that eviction looks at.
    pub open spec fn eviction_start(self) -> nat {
        if self.nodes.len() > 0 && self.nodes[0].num == self.our_node_num {
            1
        } else {
            0
        }
    }

    /// The position of the node to evict: the oldest candidate without a public
    /// key or else the oldest candidate.
    pub open spec fn victim(self) -> Option<int> {
        match oldest(self.nodes, self.eviction_start(), self.nodes.len(), true) {
            Some(i) => Some(i),
            None => oldest(self.nodes, self.eviction_start(), self.nodes.len(), false),
        }
    }

    /// The nodes after one was evicted, if any could be.
    pub open spec fn evicted(self) -> Seq<NodeInfoLiteView> {
        match self.victim() {
            Some(i) => self.nodes.remove(i),
            None => self.nodes,
        }
    }

    /// The nodes after room was made for a new one.
    pub open spec fn with_room(self) -> Seq<NodeInfoLiteView> {
        if self.nodes.len() >= self.capacity {
            self.evicted()
        } else {
            self.nodes
        }
    }

    /// The nodes after a new one was added: this node in front, others at the
    /// end.
    pub open spec fn added(self, info: NodeInfoLiteView) -> Seq<NodeInfoLiteView> {
        if info.num == self.our_node_num {
            self.with_room().insert(0, info)
        } else {
            self.with_room().push(info)
        }
    }

    /// Where a new node was added.
    pub open spec fn added_at(self, num: NodeNum) -> int {
        if num == self.our_node_num {
            0
        } else {
            self.with_room().len() as int
        }
    }

    /// The nodes after one was inserted.
    pub open spec fn inserted(self, info: NodeInfoLiteView) -> Seq<NodeInfoLiteView> {
        match position(self.nodes, info.num, 0) {
            Some(i) => self.nodes.update(i, info),
            None => self.added(info),
        }
    }

    /// The nodes with an entry for a number, blank if it is new.
    pub open spec fn with_entry(self, num: NodeNum) -> Seq<NodeInfoLiteView> {
        match position(self.nodes, num, 0) {
            Some(_) => self.nodes,
            None => self.added(NodeInfoLiteOf { num, ..NodeInfoLite::blank() }),
        }
    }

    /// Where the entry of a number stands once there is one.
    pub open spec fn entry_at(self, num: NodeNum) -> int {
        match position(self.nodes, num, 0) {
            Some(i) => i,
            None => self.added_at(num),
        }
    }

    /// Whether a received packet changes the table: it is decoded, and comes
    /// from another node that says who it is.
    pub open spec fn accepts(self, p: MeshPacketView) -> bool {
        &&& p.from != self.our_node_num
        &&& p.from != 0
        &&& p.payload_variant matches Some(PayloadVariantOf::Decoded(_))
    }

    /// The table after a received packet.
    pub open spec fn updated_by(self, p: MeshPacketView) -> NodeDbView {
        if self.accepts(p) {
            let i = self.entry_at(p.from);
            let nodes = self.with_entry(p.from);
            NodeDbView { nodes: nodes.update(i, heard(nodes[i], p)), ..self }
        } else {
            self
        }
    }
}

/// What a received packet makes of the entry of its sender.
pub open spec fn heard(n: NodeInfoLiteView, p: MeshPacketView) -> NodeInfoLiteView {
    NodeInfoLiteOf {
        last_heard: if p.rx_time != 0 {
            p.rx_time
        } else {
            n.last_heard
        },
        snr: if !message::is_float_zero(p.rx_snr) {
            p.rx_snr
        } else {
            n.snr
        },
        via_mqtt: p.via_mqtt,
        hops_away: match mesh::hops_made(p) {
            Some(h) => Some(h as u32),
            None => n.hops_away,
        },
        ..n
    }
}

/// The first position from `k` on of a node whose number an earlier node has.
pub open spec fn duplicate(nodes: Seq<NodeInfoLiteView>, k: nat) -> Option<int>
    decreases nodes.len() - k,
{
    if k >= nodes.len() {
        None
    } else if exists|j: int| 0 <= j < k && (#[trigger] nodes[j]).num == nodes[k as int].num {
        Some(k as int)
    } else {
        duplicate(nodes, k + 1)
    }
}

/// The first `k` of the stored nodes in the order of the table.
pub open spec fn loaded(nodes: Seq<NodeInfoLiteView>, our_node_num: NodeNum, k: nat) -> Seq<
    NodeInfoLiteView,
>
    decreases k,
{
    if k == 0 {
        Seq::empty()
    } else {
        let before = loaded(nodes, our_node_num, (k - 1) as nat);
        if nodes[k - 1].num == our_node_num {
            before.insert(0, nodes[k - 1])
        } else {
            before.push(nodes[k - 1])
        }
    }
}

/// The capacity that a table is given: at least one.
pub open spec fn effective_capacity(capacity: usize) -> usize {
    if capacity < 1 {
        1
    } else {
        capacity
    }
}

/// The position of a number is the first one with that number, if there is one.
pub proof fn lemma_position(nodes: Seq<NodeInfoLiteView>, num: NodeNum, k: nat)
    ensures
        match position(nodes, num, k) {
            Some(i) => k <= i < nodes.len() && nodes[i].num == num && forall|j: int|
                k <= j < i ==> (#[trigger] nodes[j]).num != num,
            None => forall|j: int| k <= j < nodes.len() ==> (#[trigger] nodes[j]).num != num,
        },
    decreases nodes.len() - k,
{
    if k < nodes.len() && nodes[k as int].num != num {
        lemma_position(nodes, num, k + 1);
    }
}

/// The oldest candidate is the first of those that were heard the longest ago.
pub proof fn lemma_oldest(nodes: Seq<NodeInfoLiteView>, start: nat, end: nat, boring: bool)
    requires
        end <= nodes.len(),
    ensures
        match oldest(nodes, start, end, boring) {
            Some(i) => {
                &&& start <= i < end
                &&& is_candidate(nodes[i], boring)
                &&& forall|j: int|
                    start <= j < end && is_candidate(#[trigger] nodes[j], boring)
                        ==> nodes[i].last_heard <= nodes[j].last_heard
                &&& forall|j: int|
                    start <= j < i && is_candidate(#[trigger] nodes[j], boring)
                        ==> nodes[i].last_heard < nodes[j].last_heard
            },
            None => forall|j: int|
                start <= j < end ==> !is_candidate(#[trigger] nodes[j], boring),
        },
    decreases end,
{
    if end > start {
        lemma_oldest(nodes, start, (end - 1) as nat, boring);
    }
}

impl NodeDb {
    /// An empty table with room for [`DEFAULT_CAPACITY`] nodes.
    pub fn new(our_node_num: NodeNum) -> (db: Self)
        ensures
            db@ == (NodeDbView {
                our_node_num,
                capacity: DEFAULT_CAPACITY,
                nodes: Seq::empty(),
            }),
            db@.wf(),
    {
        Self::with_capacity(our_node_num, DEFAULT_CAPACITY)
    }

    /// An empty table with room for `capacity` nodes, at least one.
    pub fn with_capacity(our_node_num: NodeNum, capacity: usize) -> (db: Self)
        ensures
            db@ == (NodeDbView {
                our_node_num,
                capacity: effective_capacity(capacity),
                nodes: Seq::empty(),
            }),
            db@.wf(),
    {
        let capacity: usize = if capacity < 1 {
            1
        } else {
            capacity
        };
        let db = NodeDb { our_node_num, capacity, nodes: Vec::new() };
        assert(db@.nodes =~= Seq::empty());
        db
    }

    /// The number of this node.
    pub fn our_node_num(&self) -> (r: NodeNum)
        ensures
            r == self@.our_node_num,
    {
        self.our_node_num
    }

    /// The number of nodes in the table.
    pub fn len(&self) -> (n: usize)
        ensures
            n == self@.nodes.len(),
    {
        self.nodes.len()
    }

    /// Whether the table has no nodes.
    pub fn is_empty(&self) -> (r: bool)
        ensures
            r <==> self@.nodes.len() == 0,
    {
        self.nodes.len() == 0
    }

    /// The number of nodes that the table has room for.
    pub fn capacity(&self) -> (n: usize)
        ensures
            n == self@.capacity,
    {
        self.capacity
    }

    /// Whether the table has no room left.
    pub fn is_full(&self) -> (r: bool)
        ensures
            r <==> self@.nodes.len() >= self@.capacity,
    {
        self.nodes.len() >= self.capacity
    }

    /// The nodes, in the order of the table.
    pub fn iter(&self) -> (r: &[NodeInfoLite])
        ensures
            message::views(r@) == self@.nodes,
    {
        self.nodes.as_slice()
    }

    fn index_of(&self, num: NodeNum) -> (r: Option<usize>)
        ensures
            position(self@.nodes, num, 0) == match r {
                Some(i) => Some(i as int),
                None => None,
            },
            r matches Some(i) ==> i < self.nodes@.len(),
    {
        let mut i: usize = 0;
        while i < self.nodes.len()
            invariant
                i <= self.nodes.len(),
                position(self@.nodes, num, 0) == position(self@.nodes, num, i as nat),
            decreases self.nodes.len() - i,
        {
            assert(self@.nodes[i as int] == self.nodes@[i as int]@);
            if self.nodes[i].num == num {
                return Some(i);
            }
            i += 1;
        }
        None
    }

    /// The entry of a node; the broadcast number has none.
    pub fn get(&self, num: NodeNum) -> (r: Option<&NodeInfoLite>)
        ensures
            self@.entry(num) == match r {
                Some(n) => Some(n@),
                None => None,
            },
    {
        if is_broadcast(num) {
            return None;
        }
        match self.index_of(num) {
            Some(i) => Some(&self.nodes[i]),
            None => None,
        }
    }

    /// The entry of a node, to be changed.
    pub fn get_mut(&mut self, num: NodeNum) -> (r: Option<&mut NodeInfoLite>)
        ensures
            r is Some <==> old(self)@.entry(num) is Some,
            match r {
                Some(n) => {
                    &&& old(self)@.entry(num) == Some(n@)
                    &&& final(self)@ == (NodeDbView {
                        nodes: old(self)@.nodes.update(
                            position(old(self)@.nodes, num, 0)->0,
                            final(n)@,
                        ),
                        ..old(self)@
                    })
                },
                None => final(self)@ == old(self)@,
            },
    {
        if is_broadcast(num) {
            return None;
        }
        match self.index_of(num) {
            Some(i) => Some(&mut self.nodes[i]),
            None => None,
        }
    }

    /// Removes a node; false if it is not in the table.
    pub fn remove(&mut self, num: NodeNum) -> (r: bool)
        ensures
            r <==> position(old(self)@.nodes, num, 0) is Some,
            final(self)@ == match position(old(self)@.nodes, num, 0) {
                Some(i) => NodeDbView { nodes: old(self)@.nodes.remove(i), ..old(self)@ },
                None => old(self)@,
            },
    {
        match self.index_of(num) {
            Some(i) => {
                self.nodes.remove(i);
                assert(self@.nodes =~= old(self)@.nodes.remove(i as int));
                true
            },
            None => false,
        }
    }

    /// Inserts a node, in place of the one with the same number if there is
    /// one. Where the table is full, another one is evicted first. Returns the
    /// entry, to be changed.
    pub fn insert(&mut self, info: NodeInfoLite) -> (r: &mut NodeInfoLite)
        ensures
            r@ == info@,
            final(self)@ == (NodeDbView {
                nodes: old(self)@.inserted(info@).update(
                    old(self)@.entry_at(info@.num),
                    final(r)@,
                ),
                ..old(self)@
            }),
    {
        if let Some(i) = self.index_of(info.num) {
            let ghost before = self@.nodes;
            self.nodes[i] = info;
            assert(self@.nodes =~= before.update(i as int, info@));
            return &mut self.nodes[i];
        }
        let i: usize = self.add(info);
        &mut self.nodes[i]
    }

    /// The entry of a node, to be changed; a blank one is made if there is
    /// none.
    pub fn get_or_create(&mut self, num: NodeNum) -> (r: &mut NodeInfoLite)
        requires
            num != NODENUM_BROADCAST,
        ensures
            r@ == old(self)@.with_entry(num)[old(self)@.entry_at(num)],
            final(self)@ == (NodeDbView {
                nodes: old(self)@.with_entry(num).update(old(self)@.entry_at(num), final(r)@),
                ..old(self)@
            }),
    {
        if let Some(i) = self.index_of(num) {
            return &mut self.nodes[i];
        }
        let fresh = NodeInfoLiteOf { num, ..NodeInfoLite::new_blank() };
        let i: usize = self.add(fresh);
        &mut self.nodes[i]
    }

    /// Adds a new node and returns its position.
    fn add(&mut self, info: NodeInfoLite) -> (i: usize)
        ensures
            final(self)@ == (NodeDbView { nodes: old(self)@.added(info@), ..old(self)@ }),
            i == old(self)@.added_at(info@.num),
            i < final(self).nodes@.len(),
            final(self).nodes@[i as int]@ == info@,
    {
        if self.is_full() {
            self.evict_one();
        }
        let ghost room = self@.nodes;
        if info.num == self.our_node_num {
            self.nodes.insert(0, info);
            assert(self@.nodes =~= room.insert(0, info@));
            return 0;
        }
        self.nodes.push(info);
        assert(self@.nodes =~= room.push(info@));
        self.nodes.len() - 1
    }

    /// Evicts one node, if any may be evicted.
    fn evict_one(&mut self)
        ensures
            final(self)@ == (NodeDbView { nodes: old(self)@.evicted(), ..old(self)@ }),
    {
        let start: usize = if self.nodes.len() > 0 && self.nodes[0].num == self.our_node_num {
            1
        } else {
            0
        };
        assert(start == self@.eviction_start());
        let victim: Option<usize> = match self.oldest_from(start, true) {
            Some(i) => Some(i),
            None => self.oldest_from(start, false),
        };
        if let Some(i) = victim {
            self.nodes.remove(i);
            assert(self@.nodes =~= old(self)@.nodes.remove(i as int));
        }
    }

    fn oldest_from(&self, start: usize, boring: bool) -> (r: Option<usize>)
        requires
            start <= self@.nodes.len(),
        ensures
            oldest(self@.nodes, start as nat, self@.nodes.len(), boring) == match r {
                Some(i) => Some(i as int),
                None => None,
            },
            r matches Some(i) ==> i < self.nodes@.len(),
    {
        let mut best: Option<usize> = None;
        let mut i: usize = start;
        while i < self.nodes.len()
            invariant
                start <= i <= self.nodes.len(),
                oldest(self@.nodes, start as nat, i as nat, boring) == match best {
                    Some(b) => Some(b as int),
                    None => None,
                },
                best matches Some(b) ==> b < i,
            decreases self.nodes.len() - i,
        {
            let n = &self.nodes[i];
            assert(self@.nodes[i as int] == n@);
            if candidate(n, boring) {
                match best {
                    Some(b) => {
                        assert(self@.nodes[b as int] == self.nodes@[b as int]@);
                        if n.last_heard < self.nodes[b].last_heard {
                            best = Some(i);
                        }
                    },
                    None => best = Some(i),
                }
            }
            i += 1;
        }
        best
    }
}

fn candidate(n: &NodeInfoLite, boring: bool) -> (r: bool)
    ensures
        r == is_candidate(n@, boring),
{
    let bits: u32 = n.bitfield;
    assert((bits & 1 != 0) == (bits % 2 == 1)) by (bit_vector);
    if n.is_favorite || n.is_ignored || (n.bitfield & BITFIELD_IS_KEY_MANUALLY_VERIFIED) != 0 {
        return false;
    }
    if !boring {
        return true;
    }
    match &n.user {
        Some(u) => u.public_key.len() == 0,
        None => true,
    }
}

impl NodeDb {
    /// Records what a received packet tells of its sender, and returns the
    /// sender's number. Packets of this node, packets without a sender and
    /// packets that are not decoded change nothing.
    pub fn update_from(&mut self, packet: &MeshPacket) -> (r: Option<NodeNum>)
        requires
            old(self)@.accepts(packet@) ==> packet@.from != NODENUM_BROADCAST,
        ensures
            r == if old(self)@.accepts(packet@) {
                Some(packet@.from)
            } else {
                None
            },
            final(self)@ == if old(self)@.accepts(packet@) {
                let i = old(self)@.entry_at(packet@.from);
                let nodes = old(self)@.with_entry(packet@.from);
                NodeDbView { nodes: nodes.update(i, heard(nodes[i], packet@)), ..old(self)@ }
            } else {
                old(self)@
            },
            final(self)@ == old(self)@.updated_by(packet@),
            r is Some <==> packet@.from != old(self)@.our_node_num && packet@.from != 0 && (
            packet@.payload_variant matches Some(PayloadVariantOf::Decoded(_))),
            r matches Some(num) ==> num == packet@.from,
            r is None ==> final(self)@ == old(self)@,
    {
        if packet.from == self.our_node_num {
            return None;
        }
        match &packet.payload_variant {
            Some(PayloadVariantOf::Decoded(_)) => {},
            _ => return None,
        }
        if packet.from == 0 {
            return None;
        }
        let num: NodeNum = packet.from;
        let hops: Option<u8> = hops_away(packet);
        let info = self.get_or_create(num);
        if packet.rx_time != 0 {
            info.last_heard = packet.rx_time;
        }
        if packet.rx_snr != 0 && packet.rx_snr != 0x8000_0000 {
            info.snr = packet.rx_snr;
        }
        info.via_mqtt = packet.via_mqtt;
        if let Some(h) = hops {
            info.hops_away = Some(h as u32);
        }
        Some(num)
    }

    /// Marks a node as a favourite or not; true if that changed it.
    pub fn set_favorite(&mut self, num: NodeNum, favourite: bool) -> (r: bool)
        ensures
            r <==> (old(self)@.entry(num) matches Some(n) && n.is_favorite != favourite),
            final(self)@ == match old(self)@.entry(num) {
                Some(n) => NodeDbView {
                    nodes: old(self)@.nodes.update(
                        position(old(self)@.nodes, num, 0)->0,
                        NodeInfoLiteOf { is_favorite: favourite, ..n },
                    ),
                    ..old(self)@
                },
                None => old(self)@,
            },
    {
        proof {
            lemma_position(self@.nodes, num, 0);
        }
        let changed = match self.get_mut(num) {
            Some(info) => {
                let changed = info.is_favorite != favourite;
                info.is_favorite = favourite;
                changed
            },
            None => false,
        };
        changed
    }

    /// Whether a node is in the table and a favourite.
    pub fn is_favorite(&self, num: NodeNum) -> (r: bool)
        ensures
            r <==> (self@.entry(num) matches Some(n) && n.is_favorite),
    {
        match self.get(num) {
            Some(n) => n.is_favorite,
            None => false,
        }
    }

    /// Whether the sender or the receiver of a packet is a favourite; of a
    /// broadcast, only the sender counts.
    pub fn is_from_or_to_favorited(&self, packet: &MeshPacket) -> (r: bool)
        ensures
            packet@.to == NODENUM_BROADCAST ==> (r <==> (self@.entry(packet@.from) matches Some(n)
                && n.is_favorite)),
            packet@.to != NODENUM_BROADCAST ==> (r <==> favorite_at(self@.nodes, packet@.from)
                || favorite_at(self@.nodes, packet@.to)),
    {
        if is_broadcast(packet.to) {
            return self.is_favorite(packet.from);
        }
        if let Some(i) = self.index_of(packet.from) {
            assert(self@.nodes[i as int] == self.nodes@[i as int]@);
            if self.nodes[i].is_favorite {
                return true;
            }
        }
        if let Some(i) = self.index_of(packet.to) {
            assert(self@.nodes[i as int] == self.nodes@[i as int]@);
            return self.nodes[i].is_favorite;
        }
        false
    }

    /// Marks a node as ignored or not; true if that changed it.
    pub fn set_ignored(&mut self, num: NodeNum, ignored: bool) -> (r: bool)
        ensures
            r <==> (old(self)@.entry(num) matches Some(n) && n.is_ignored != ignored),
            final(self)@ == match old(self)@.entry(num) {
                Some(n) => NodeDbView {
                    nodes: old(self)@.nodes.update(
                        position(old(self)@.nodes, num, 0)->0,
                        NodeInfoLiteOf { is_ignored: ignored, ..n },
                    ),
                    ..old(self)@
                },
                None => old(self)@,
            },
    {
        let changed = match self.get_mut(num) {
            Some(info) => {
                let changed = info.is_ignored != ignored;
                info.is_ignored = ignored;
                changed
            },
            None => false,
        };
        changed
    }

    /// Whether a node is in the table and ignored.
    pub fn is_ignored(&self, num: NodeNum) -> (r: bool)
        ensures
            r <==> (self@.entry(num) matches Some(n) && n.is_ignored),
    {
        match self.get(num) {
            Some(n) => n.is_ignored,
            None => false,
        }
    }

    /// The table as it is stored.
    pub fn to_proto(&self) -> (r: NodeDatabase)
        ensures
            r@ == (NodeDatabaseOf { nodes: self@.nodes, version: NODE_DATABASE_VERSION }),
    {
        let nodes = self.nodes.clone();
        assert(message::views(nodes@) =~= self@.nodes);
        NodeDatabaseOf { nodes, version: NODE_DATABASE_VERSION }
    }

    /// Loads a stored table.
    pub fn from_proto(our_node_num: NodeNum, capacity: usize, proto: NodeDatabase) -> (r: Result<
        Self,
        NodeDbError,
    >)
        ensures
            match r {
                Ok(db) => {
                    &&& proto@.nodes.len() <= effective_capacity(capacity)
                    &&& duplicate(proto@.nodes, 0) is None
                    &&& db@ == (NodeDbView {
                        our_node_num,
                        capacity: effective_capacity(capacity),
                        nodes: loaded(proto@.nodes, our_node_num, proto@.nodes.len()),
                    })
                    &&& db@.wf()
                },
                Err(NodeDbError::TooManyNodes { got, max }) => {
                    &&& proto@.nodes.len() > effective_capacity(capacity)
                    &&& got == proto@.nodes.len()
                    &&& max == effective_capacity(capacity)
                },
                Err(NodeDbError::DuplicateNode(num)) => {
                    &&& proto@.nodes.len() <= effective_capacity(capacity)
                    &&& duplicate(proto@.nodes, 0) matches Some(i) && num == proto@.nodes[i].num
                },
            },
    {
        let cap: usize = if capacity < 1 {
            1
        } else {
            capacity
        };
        if proto.nodes.len() > cap {
            return Err(NodeDbError::TooManyNodes { got: proto.nodes.len(), max: cap });
        }
        let mut db = Self::with_capacity(our_node_num, cap);
        let ghost all = proto@.nodes;
        let ghost elements = proto.nodes@;
        for info in iter: proto.nodes
            invariant
                iter.seq() == elements,
                all == message::views(elements),
                all == proto@.nodes,
                all.len() <= effective_capacity(capacity),
                db@ == (NodeDbView {
                    our_node_num,
                    capacity: effective_capacity(capacity),
                    nodes: loaded(all, our_node_num, iter.index() as nat),
                }),
                db@.wf(),
                duplicate(all, 0) == duplicate(all, iter.index() as nat),
                forall|num: NodeNum|
                    position(db@.nodes, num, 0) is Some <==> exists|j: int|
                        0 <= j < iter.index() && (#[trigger] all[j]).num == num,
        {
            let ghost k = iter.index() as int;
            assert(all[k] == info@);
            let ghost before = db@;
            if db.index_of(info.num).is_some() {
                assert(duplicate(all, k as nat) == Some(k));
                return Err(NodeDbError::DuplicateNode(info.num));
            }
            proof {
                lemma_position(before.nodes, info@.num, 0);
            }
            if info.num == our_node_num {
                db.nodes.insert(0, info);
                assert(db@.nodes =~= before.nodes.insert(0, info@));
            } else {
                db.nodes.push(info);
                assert(db@.nodes =~= before.nodes.push(info@));
            }
            proof {
                assert forall|num: NodeNum|
                    position(db@.nodes, num, 0) is Some <==> exists|j: int|
                        0 <= j < k + 1 && (#[trigger] all[j]).num == num by {
                    lemma_position(before.nodes, num, 0);
                    lemma_position(db@.nodes, num, 0);
                    if num == info@.num {
                        assert(all[k].num == num);
                        let at = if info@.num == our_node_num {
                            0
                        } else {
                            before.nodes.len() as int
                        };
                        assert(db@.nodes[at].num == num);
                    } else {
                        if let Some(i) = position(before.nodes, num, 0) {
                            let at = if info@.num == our_node_num {
                                i + 1
                            } else {
                                i
                            };
                            assert(db@.nodes[at] == before.nodes[i]);
                        }
                        if let Some(i) = position(db@.nodes, num, 0) {
                            let at = if info@.num == our_node_num {
                                i - 1
                            } else {
                                i
                            };
                            assert(before.nodes[at] == db@.nodes[i]);
                        }
                    }
                }
            }
        }
        Ok(db)
    }
}

/// Whether the first node with a number is a favourite.
pub open spec fn favorite_at(nodes: Seq<NodeInfoLiteView>, num: NodeNum) -> bool {
    position(nodes, num, 0) matches Some(i) && nodes[i].is_favorite
}

impl Clone for NodeDb {
    fn clone(&self) -> (r: Self)
        ensures
            r@ == self@,
    {
        let nodes = self.nodes.clone();
        assert(message::views(nodes@) =~= self@.nodes);
        NodeDb { our_node_num: self.our_node_num, capacity: self.capacity, nodes }
    }
}

// ---------------------------------------------------------------------------
// Laws
// ---------------------------------------------------------------------------

/// Eviction never takes this node or a pinned one. It takes the node that was
/// heard the longest ago, and one with a public key only if every node without
/// is pinned; where it takes none, every other node is pinned.
pub proof fn lemma_victim(db: NodeDbView)
    requires
        db.wf(),
    ensures
        match db.victim() {
            Some(i) => {
                &&& 0 <= i < db.nodes.len()
                &&& db.nodes[i].num != db.our_node_num
                &&& !is_pinned(db.nodes[i])
                &&& forall|j: int|
                    0 <= j < db.nodes.len() && (#[trigger] db.nodes[j]).num != db.our_node_num
                        && is_candidate(db.nodes[j], is_boring(db.nodes[i]))
                        ==> db.nodes[i].last_heard <= db.nodes[j].last_heard
                &&& !is_boring(db.nodes[i]) ==> forall|j: int|
                    0 <= j < db.nodes.len() && (#[trigger] db.nodes[j]).num != db.our_node_num
                        && is_boring(db.nodes[j]) ==> is_pinned(db.nodes[j])
            },
            None => forall|j: int|
                0 <= j < db.nodes.len() && (#[trigger] db.nodes[j]).num != db.our_node_num
                    ==> is_pinned(db.nodes[j]),
        },
{
    lemma_oldest(db.nodes, db.eviction_start(), db.nodes.len(), true);
    lemma_oldest(db.nodes, db.eviction_start(), db.nodes.len(), false);
}

/// Making room removes at most the victim and keeps the table well formed.
proof fn lemma_room(db: NodeDbView)
    requires
        db.wf(),
    ensures
        (NodeDbView { nodes: db.with_room(), ..db }).wf(),
        db.with_room() == db.nodes || (db.nodes.len() >= db.capacity && db.victim() is Some
            && db.with_room() == db.nodes.remove(db.victim()->0)),
{
    lemma_victim(db);
    if let Some(i) = db.victim() {
        lemma_remove_keeps_wf(db, i);
    }
}

/// Removing a node keeps the table well formed.
pub proof fn lemma_remove_keeps_wf(db: NodeDbView, i: int)
    requires
        db.wf(),
        0 <= i < db.nodes.len(),
    ensures
        (NodeDbView { nodes: db.nodes.remove(i), ..db }).wf(),
        position(db.nodes.remove(i), db.nodes[i].num, 0) is None,
{
    let rest = db.nodes.remove(i);
    assert forall|a: int, b: int| 0 <= a < b < rest.len() implies (#[trigger] rest[a]).num != (
    #[trigger] rest[b]).num by {
        let a0 = if a < i {
            a
        } else {
            a + 1
        };
        let b0 = if b < i {
            b
        } else {
            b + 1
        };
        assert(db.nodes[a0].num != db.nodes[b0].num);
    }
    assert forall|a: int| 0 <= a < rest.len() && (#[trigger] rest[a]).num
        == db.our_node_num implies a == 0 by {
        let a0 = if a < i {
            a
        } else {
            a + 1
        };
        assert(rest[a] == db.nodes[a0]);
    }
    lemma_position(rest, db.nodes[i].num, 0);
    assert forall|a: int| 0 <= a < rest.len() implies (#[trigger] rest[a]).num
        != db.nodes[i].num by {
        let a0 = if a < i {
            a
        } else {
            a + 1
        };
        assert(rest[a] == db.nodes[a0]);
    }
}

/// Changing an entry keeps the table well formed as long as its number stays.
pub proof fn lemma_update_keeps_wf(db: NodeDbView, i: int, n: NodeInfoLiteView)
    requires
        db.wf(),
        0 <= i < db.nodes.len(),
        n.num == db.nodes[i].num,
    ensures
        (NodeDbView { nodes: db.nodes.update(i, n), ..db }).wf(),
{
    let after = db.nodes.update(i, n);
    assert(forall|a: int| 0 <= a < after.len() ==> (#[trigger] after[a]).num == db.nodes[a].num);
}

/// Inserting a node keeps the table well formed, and the node is then found.
pub proof fn lemma_insert(db: NodeDbView, info: NodeInfoLiteView)
    requires
        db.wf(),
    ensures
        (NodeDbView { nodes: db.inserted(info), ..db }).wf(),
        0 <= db.entry_at(info.num) < db.inserted(info).len(),
        db.inserted(info)[db.entry_at(info.num)] == info,
        position(db.inserted(info), info.num, 0) == Some(db.entry_at(info.num)),
{
    lemma_position(db.nodes, info.num, 0);
    lemma_room(db);
    let after = db.inserted(info);
    let at = db.entry_at(info.num);
    match position(db.nodes, info.num, 0) {
        Some(i) => lemma_update_keeps_wf(db, i, info),
        None => {
            let room = db.with_room();
            assert forall|j: int| 0 <= j < room.len() implies (#[trigger] room[j]).num
                != info.num by {
                if room != db.nodes {
                    let v = db.victim()->0;
                    lemma_victim(db);
                    let j0 = if j < v {
                        j
                    } else {
                        j + 1
                    };
                    assert(room[j] == db.nodes[j0]);
                }
            }
            if info.num == db.our_node_num {
                assert(forall|j: int| 1 <= j < after.len() ==> #[trigger] after[j] == room[j - 1]);
            } else {
                assert(forall|j: int| 0 <= j < room.len() ==> #[trigger] after[j] == room[j]);
            }
        },
    }
    lemma_position(after, info.num, 0);
    assert(after[at].num == info.num);
}

/// Where a full table has a node that may be evicted, an insertion does not
/// make it grow; otherwise it makes it grow by at most one.
pub proof fn lemma_insert_len(db: NodeDbView, info: NodeInfoLiteView)
    requires
        db.wf(),
    ensures
        db.inserted(info).len() <= db.nodes.len() + 1,
        db.nodes.len() <= db.capacity && (db.nodes.len() == db.capacity ==> db.victim() is Some)
            ==> db.inserted(info).len() <= db.capacity,
{
    lemma_victim(db);
    lemma_position(db.nodes, info.num, 0);
}

/// An insertion changes no entry of another node, and forgets at most the one
/// that eviction takes.
pub proof fn lemma_insert_keeps_others(db: NodeDbView, info: NodeInfoLiteView, num: NodeNum)
    requires
        db.wf(),
        num != info.num,
        db.entry(num) is Some,
    ensures
        (NodeDbView { nodes: db.inserted(info), ..db }).entry(num) == db.entry(num) || (
        db.victim() matches Some(i) && db.nodes[i].num == num && db.nodes.len() >= db.capacity
            && position(db.nodes, info.num, 0) is None),
{
    lemma_insert(db, info);
    lemma_position(db.nodes, num, 0);
    lemma_position(db.nodes, info.num, 0);
    let after = NodeDbView { nodes: db.inserted(info), ..db };
    lemma_position(after.nodes, num, 0);
    let i = position(db.nodes, num, 0)->0;
    lemma_room(db);
    lemma_victim(db);
    match position(db.nodes, info.num, 0) {
        Some(k) => assert(after.nodes[i] == db.nodes[i]),
        None => {
            let room = db.with_room();
            let evicted = room != db.nodes;
            let v = db.victim()->0;
            if !evicted || i != v {
                let r = if evicted && i > v {
                    i - 1
                } else {
                    i
                };
                assert(room[r] == db.nodes[i]);
                let a = if info.num == db.our_node_num {
                    r + 1
                } else {
                    r
                };
                assert(after.nodes[a] == room[r]);
                let b = position(after.nodes, num, 0)->0;
                assert(a == b);
            }
        },
    }
}

/// What a received packet makes of the table: it stays well formed, and its
/// sender is then known.
pub proof fn lemma_update_from(db: NodeDbView, p: MeshPacketView)
    requires
        db.wf(),
        db.accepts(p),
        p.from != NODENUM_BROADCAST,
    ensures
        ({
            let i = db.entry_at(p.from);
            let nodes = db.with_entry(p.from);
            let after = NodeDbView { nodes: nodes.update(i, heard(nodes[i], p)), ..db };
            after.wf() && after.entry(p.from) == Some(heard(nodes[i], p))
        }),
{
    let i = db.entry_at(p.from);
    let nodes = db.with_entry(p.from);
    lemma_position(db.nodes, p.from, 0);
    let blank = NodeInfoLiteOf { num: p.from, ..NodeInfoLite::blank() };
    if position(db.nodes, p.from, 0) is None {
        lemma_insert(db, blank);
    }
    let now = NodeDbView { nodes, ..db };
    assert(now.wf());
    lemma_update_keeps_wf(now, i, heard(nodes[i], p));
    let after = nodes.update(i, heard(nodes[i], p));
    lemma_position(after, p.from, 0);
    assert(after[i].num == p.from);
}

/// Loading a table undoes storing it: a table within its capacity is what its
/// stored form loads as.
pub proof fn lemma_load_of_store(db: NodeDbView)
    requires
        db.wf(),
        db.nodes.len() <= db.capacity,
    ensures
        duplicate(db.nodes, 0) is None,
        loaded(db.nodes, db.our_node_num, db.nodes.len()) == db.nodes,
{
    lemma_no_duplicate(db, 0);
    lemma_loaded(db, db.nodes.len());
    assert(db.nodes.take(db.nodes.len() as int) =~= db.nodes);
}

proof fn lemma_no_duplicate(db: NodeDbView, k: nat)
    requires
        db.wf(),
    ensures
        duplicate(db.nodes, k) is None,
    decreases db.nodes.len() - k,
{
    if k < db.nodes.len() {
        lemma_no_duplicate(db, k + 1);
    }
}

proof fn lemma_loaded(db: NodeDbView, k: nat)
    requires
        db.wf(),
        k <= db.nodes.len(),
    ensures
        loaded(db.nodes, db.our_node_num, k) == db.nodes.take(k as int),
    decreases k,
{
    if k > 0 {
        lemma_loaded(db, (k - 1) as nat);
        assert(db.nodes.take(k - 1).push(db.nodes[k - 1]) =~= db.nodes.take(k as int));
        if db.nodes[k - 1].num == db.our_node_num {
            assert(k == 1);
            assert(db.nodes.take(0).insert(0, db.nodes[0]) =~= db.nodes.take(1));
        }
    } else {
        assert(db.nodes.take(0) =~= Seq::empty());
    }
}

/// The entry of a number is the one node in the table with that number, if there is
/// one and the number is not that of all nodes.
pub proof fn lemma_entry(db: NodeDbView, num: NodeNum)
    requires
        db.wf(),
    ensures
        num == 0xffff_ffff ==> db.entry(num) is None,
        db.entry(num) matches Some(n) ==> n.num == num && db.nodes.contains(n),
        num != 0xffff_ffff ==> forall|i: int|
            0 <= i < db.nodes.len() && (#[trigger] db.nodes[i]).num == num ==> db.entry(num)
                == Some(db.nodes[i]),
        num != 0xffff_ffff && db.entry(num) is None ==> forall|i: int|
            0 <= i < db.nodes.len() ==> (#[trigger] db.nodes[i]).num != num,
{
    lemma_position(db.nodes, num, 0);
    if let Some(k) = position(db.nodes, num, 0) {
        assert(db.nodes.contains(db.nodes[k]));
        assert forall|i: int| 0 <= i < db.nodes.len() && (#[trigger] db.nodes[i]).num
            == num implies i == k by {
            if i != k {
                assert(db.nodes[i].num != db.nodes[k].num);
            }
        }
    }
}

/// Which node is evicted, by what is stored of it: never this node, a favourite, an
/// ignored node, or one whose key was verified by hand. It was heard no later than any
/// other node of its sort that may be evicted, and comes first of those heard as long
/// ago; a node with a public key is evicted only if every node without is spared. None
/// is evicted only if every node is spared.
pub proof fn lemma_evicted_node(db: NodeDbView)
    requires
        db.wf(),
    ensures
        match db.victim() {
            Some(i) => {
                let v = db.nodes[i];
                &&& 0 <= i < db.nodes.len()
                &&& v.num != db.our_node_num
                &&& !v.is_favorite && !v.is_ignored && v.bitfield % 2 == 0
                &&& (v.user matches Some(u) && u.public_key.len() > 0) ==> forall|j: int|
                    0 <= j < db.nodes.len() && (#[trigger] db.nodes[j]).num != db.our_node_num && (
                    db.nodes[j].user matches Some(w) ==> w.public_key.len() == 0)
                        ==> db.nodes[j].is_favorite || db.nodes[j].is_ignored
                        || db.nodes[j].bitfield % 2 == 1
                &&& forall|j: int|
                    0 <= j < db.nodes.len() && (#[trigger] db.nodes[j]).num != db.our_node_num
                        && !db.nodes[j].is_favorite && !db.nodes[j].is_ignored
                        && db.nodes[j].bitfield % 2 == 0 && ((db.nodes[j].user matches Some(w)
                        && w.public_key.len() > 0) ==> (v.user matches Some(u)
                        && u.public_key.len() > 0)) ==> v.last_heard <= db.nodes[j].last_heard && (j
                        < i ==> v.last_heard < db.nodes[j].last_heard)
            },
            None => forall|j: int|
                0 <= j < db.nodes.len() && (#[trigger] db.nodes[j]).num != db.our_node_num
                    ==> db.nodes[j].is_favorite || db.nodes[j].is_ignored || db.nodes[j].bitfield
                    % 2 == 1,
        },
{
    lemma_victim(db);
    lemma_oldest(db.nodes, db.eviction_start(), db.nodes.len(), true);
    lemma_oldest(db.nodes, db.eviction_start(), db.nodes.len(), false);
}

/// A favourite, an ignored node, one whose key was verified by hand, and this node are
/// never forgotten for a new one; no other is while there is room, and no entry is
/// changed.
pub proof fn lemma_spared_nodes_kept(db: NodeDbView, info: NodeInfoLiteView, num: NodeNum)
    requires
        db.wf(),
        num != info.num,
        db.entry(num) is Some,
        db.nodes.len() < db.capacity || db.entry(info.num) is Some || num == db.our_node_num
            || db.entry(num)->0.is_favorite || db.entry(num)->0.is_ignored
            || db.entry(num)->0.bitfield % 2 == 1,
    ensures
        (NodeDbView { nodes: db.inserted(info), ..db }).entry(num) == db.entry(num),
{
    lemma_insert_keeps_others(db, info, num);
    lemma_evicted_node(db);
    lemma_position(db.nodes, num, 0);
    lemma_position(db.nodes, info.num, 0);
}

/// A table has at most as many nodes as it has room for, as long as some node may be
/// evicted, and a new node in a full table takes the place of exactly one.
pub proof fn lemma_full_table(db: NodeDbView, info: NodeInfoLiteView)
    requires
        db.wf(),
        forall|i: int| 0 <= i < db.nodes.len() ==> (#[trigger] db.nodes[i]).num != info.num,
    ensures
        db.nodes.len() < db.capacity ==> db.inserted(info).len() == db.nodes.len() + 1,
        db.nodes.len() >= db.capacity && (exists|i: int|
            0 <= i < db.nodes.len() && (#[trigger] db.nodes[i]).num != db.our_node_num
                && !db.nodes[i].is_favorite && !db.nodes[i].is_ignored && db.nodes[i].bitfield % 2
                == 0) ==> db.inserted(info).len() == db.nodes.len(),
        info.num == db.our_node_num ==> db.inserted(info)[0] == info,
        info.num != db.our_node_num ==> db.inserted(info).last() == info,
{
    lemma_evicted_node(db);
    lemma_position(db.nodes, info.num, 0);
    lemma_room(db);
}

/// The entry of a number that was not known is blank but for the number; one that was
/// known is as it was.
pub proof fn lemma_with_entry(db: NodeDbView, num: NodeNum)
    requires
        db.wf(),
        num != NODENUM_BROADCAST,
    ensures
        ({
            let after = NodeDbView { nodes: db.with_entry(num), ..db };
            &&& after.wf()
            &&& 0 <= db.entry_at(num) < after.nodes.len()
            &&& after.entry(num) == Some(after.nodes[db.entry_at(num)])
            &&& db.entry(num) is Some ==> after == db
            &&& db.entry(num) is None ==> (after.entry(num) matches Some(n) && n.num == num
                && n.last_heard == 0 && n.snr == 0 && !n.via_mqtt && n.hops_away is None && n.user
                is None && n.position is None && n.device_metrics is None && !n.is_favorite
                && !n.is_ignored && n.channel == 0 && n.next_hop == 0 && n.bitfield == 0)
        }),
{
    lemma_position(db.nodes, num, 0);
    let blank = NodeInfoLiteOf { num, ..NodeInfoLite::blank() };
    if position(db.nodes, num, 0) is None {
        lemma_insert(db, blank);
    }
}

/// What an accepted packet tells of its sender is what the table then says of it,
/// whatever it said before: the time of the packet if it has one, its signal if it was
/// measured, whether it came over MQTT, and its hops if they are told. What the packet
/// does not tell stays as it was, or blank for a node that is new.
pub proof fn lemma_heard_is_recorded(db: NodeDbView, p: MeshPacketView)
    requires
        db.wf(),
        p.from != db.our_node_num,
        p.from != 0,
        p.from != 0xffff_ffff,
        p.payload_variant matches Some(PayloadVariantOf::Decoded(_)),
    ensures
        db.accepts(p),
        db.updated_by(p).wf(),
        db.updated_by(p).entry(p.from) matches Some(n) && {
            let told = p.hop_limit <= p.hop_start && (p.hop_start > 0
                || p.payload_variant->Some_0->Decoded_0.bitfield is Some);
            let known = db.entry(p.from);
            &&& n.num == p.from
            &&& p.rx_time != 0 ==> n.last_heard == p.rx_time
            &&& p.rx_snr != 0 && p.rx_snr != 0x8000_0000 ==> n.snr == p.rx_snr
            &&& n.via_mqtt == p.via_mqtt
            &&& told ==> (n.hops_away matches Some(h) && h as int == (p.hop_start - p.hop_limit)
                % 256)
            &&& known matches Some(b) ==> {
                &&& p.rx_time == 0 ==> n.last_heard == b.last_heard
                &&& p.rx_snr == 0 || p.rx_snr == 0x8000_0000 ==> n.snr == b.snr
                &&& !told ==> n.hops_away == b.hops_away
                &&& n.user == b.user && n.position == b.position && n.device_metrics
                    == b.device_metrics
                &&& n.channel == b.channel && n.next_hop == b.next_hop && n.bitfield == b.bitfield
                &&& n.is_favorite == b.is_favorite && n.is_ignored == b.is_ignored
            }
            &&& known is None ==> {
                &&& p.rx_time == 0 ==> n.last_heard == 0
                &&& p.rx_snr == 0 || p.rx_snr == 0x8000_0000 ==> n.snr == 0
                &&& !told ==> n.hops_away is None
                &&& n.user is None && n.position is None && n.device_metrics is None
                &&& n.channel == 0 && n.next_hop == 0 && n.bitfield == 0
                &&& !n.is_favorite && !n.is_ignored
            }
        },
{
    lemma_update_from(db, p);
    lemma_with_entry(db, p.from);
    mesh::lemma_hops_made(p);
    let i = db.entry_at(p.from);
    let before = db.with_entry(p.from)[i];
    let with = NodeDbView { nodes: db.with_entry(p.from), ..db };
    assert(with.entry(p.from) == Some(before));
    assert(db.entry(p.from) matches Some(b) ==> b == before);
    assert(db.updated_by(p).entry(p.from) == Some(heard(before, p)));
    assert(before.num == p.from) by {
        lemma_position(with.nodes, p.from, 0);
    }
}

/// A node that is heard twice was last heard at the second packet, if that has a time;
/// each field that the second packet tells is the second packet's.
pub proof fn lemma_heard_twice(db: NodeDbView, p: MeshPacketView, q: MeshPacketView)
    requires
        db.wf(),
        p.from == q.from,
        p.from != db.our_node_num,
        p.from != 0,
        p.from != 0xffff_ffff,
        p.payload_variant matches Some(PayloadVariantOf::Decoded(_)),
        q.payload_variant matches Some(PayloadVariantOf::Decoded(_)),
    ensures
        db.updated_by(p).updated_by(q).entry(q.from) matches Some(n) && {
            &&& q.rx_time != 0 ==> n.last_heard == q.rx_time
            &&& q.rx_time == 0 && p.rx_time != 0 ==> n.last_heard == p.rx_time
            &&& n.via_mqtt == q.via_mqtt
            &&& q.rx_snr != 0 && q.rx_snr != 0x8000_0000 ==> n.snr == q.rx_snr
        },
{
    lemma_heard_is_recorded(db, p);
    lemma_heard_is_recorded(db.updated_by(p), q);
}

/// Packets of this node, packets without a sender, and packets that are not decoded
/// tell the table nothing.
pub proof fn lemma_unheard(db: NodeDbView, p: MeshPacketView)
    requires
        p.from == db.our_node_num || p.from == 0 || !(p.payload_variant matches Some(
            PayloadVariantOf::Decoded(_),
        )),
    ensures
        !db.accepts(p),
        db.updated_by(p) == db,
{
}

/// A packet changes the entry of no node but its sender, and makes the table forget at
/// most one node: only if the sender is new and the table full, and never this node, a
/// favourite, an ignored node, or one whose key was verified by hand.
pub proof fn lemma_heard_keeps_others(db: NodeDbView, p: MeshPacketView, num: NodeNum)
    requires
        db.wf(),
        db.accepts(p),
        p.from != 0xffff_ffff,
        num != p.from,
        db.entry(num) is Some,
    ensures
        db.updated_by(p).entry(num) == db.entry(num) || {
            &&& db.updated_by(p).entry(num) is None
            &&& db.entry(p.from) is None
            &&& db.nodes.len() >= db.capacity
            &&& num != db.our_node_num
            &&& !db.entry(num)->0.is_favorite
            &&& !db.entry(num)->0.is_ignored
            &&& db.entry(num)->0.bitfield % 2 == 0
        },
{
    let i = db.entry_at(p.from);
    let with = NodeDbView { nodes: db.with_entry(p.from), ..db };
    let after = db.updated_by(p);
    let blank = NodeInfoLiteOf { num: p.from, ..NodeInfoLite::blank() };
    lemma_with_entry(db, p.from);
    lemma_update_from(db, p);
    lemma_position(db.nodes, num, 0);
    lemma_position(db.nodes, p.from, 0);
    lemma_position(with.nodes, num, 0);
    lemma_position(after.nodes, num, 0);
    lemma_evicted_node(db);
    if position(db.nodes, p.from, 0) is None {
        assert(with.nodes == db.inserted(blank));
        lemma_insert_keeps_others(db, blank, num);
        lemma_insert(db, blank);
    }
    assert(forall|j: int|
        0 <= j < after.nodes.len() && j != i ==> #[trigger] after.nodes[j] == with.nodes[j]);
    assert(after.nodes[i].num == p.from && with.nodes[i].num == p.from);
    if let Some(a) = position(with.nodes, num, 0) {
        assert(a != i);
        assert(after.nodes[a] == with.nodes[a]);
        let b = position(after.nodes, num, 0)->0;
        if a != b {
            assert(after.nodes[a].num != after.nodes[b].num);
        }
    }
    if position(with.nodes, num, 0) is None {
        assert(position(after.nodes, num, 0) is None) by {
            if let Some(b) = position(after.nodes, num, 0) {
                assert(b != i);
                assert(with.nodes[b] == after.nodes[b]);
            }
        }
    }
    if position(db.nodes, p.from, 0) is None && with.entry(num) != db.entry(num) {
        lemma_room(db);
        let v = db.victim()->0;
        assert(db.nodes[v].num == num);
        let k = position(db.nodes, num, 0)->0;
        if k != v {
            assert(db.nodes[k].num != db.nodes[v].num);
        }
        lemma_remove_keeps_wf(db, v);
        lemma_position(db.nodes.remove(v), num, 0);
        if let Some(a) = position(with.nodes, num, 0) {
            assert(a != i);
            let r = if p.from == db.our_node_num {
                a - 1
            } else {
                a
            };
            assert(with.nodes[a] == db.nodes.remove(v)[r]);
        }
    }
}

/// A stored table has a duplicate exactly if two of its nodes share a number.
pub proof fn lemma_duplicate(nodes: Seq<NodeInfoLiteView>, k: nat)
    ensures
        match duplicate(nodes, k) {
            Some(i) => k <= i < nodes.len() && exists|j: int|
                0 <= j < i && (#[trigger] nodes[j]).num == nodes[i].num,
            None => forall|i: int, j: int|
                k <= i < nodes.len() && 0 <= j < i ==> (#[trigger] nodes[j]).num != (
                #[trigger] nodes[i]).num,
        },
    decreases nodes.len() - k,
{
    if k < nodes.len() && !(exists|j: int|
        0 <= j < k && (#[trigger] nodes[j]).num == nodes[k as int].num) {
        lemma_duplicate(nodes, k + 1);
    }
}

/// A loaded table holds the stored nodes, unchanged: this node in front, if it is among
/// them, and all others behind it in the order in which they were stored.
pub proof fn lemma_loaded_order(nodes: Seq<NodeInfoLiteView>, our_node_num: NodeNum, k: nat)
    requires
        k <= nodes.len(),
        forall|i: int, j: int|
            0 <= i < j < nodes.len() ==> (#[trigger] nodes[i]).num != (#[trigger] nodes[j]).num,
    ensures
        loaded(nodes, our_node_num, k) == nodes.take(k as int).filter(
            |n: NodeInfoLiteView| n.num == our_node_num,
        ) + nodes.take(k as int).filter(|n: NodeInfoLiteView| n.num != our_node_num),
        nodes.take(k as int).filter(|n: NodeInfoLiteView| n.num == our_node_num).len() == 0
            || exists|j: int| 0 <= j < k && (#[trigger] nodes[j]).num == our_node_num,
    decreases k,
{
    let ours = |n: NodeInfoLiteView| n.num == our_node_num;
    let others = |n: NodeInfoLiteView| n.num != our_node_num;
    reveal(Seq::filter);
    if k == 0 {
        assert(nodes.take(0) =~= Seq::empty());
    } else {
        lemma_loaded_order(nodes, our_node_num, (k - 1) as nat);
        let before = nodes.take(k - 1);
        let now = nodes.take(k as int);
        let n = nodes[k - 1];
        assert(now.drop_last() =~= before);
        assert(now.last() == n);
        if n.num == our_node_num {
            assert(before.filter(ours).len() == 0);
            assert(before.filter(ours) =~= Seq::empty());
            assert((before.filter(ours) + before.filter(others)).insert(0, n) =~= before.filter(
                ours,
            ).push(n) + before.filter(others));
        } else {
            assert((before.filter(ours) + before.filter(others)).push(n) =~= before.filter(ours)
                + before.filter(others).push(n));
        }
    }
}

/// Whether a number is that of a favourite: some node in the table has it and is one.
pub proof fn lemma_favorite_at(db: NodeDbView, num: NodeNum)
    requires
        db.wf(),
    ensures
        favorite_at(db.nodes, num) <==> exists|i: int|
            0 <= i < db.nodes.len() && (#[trigger] db.nodes[i]).num == num
                && db.nodes[i].is_favorite,
{
    lemma_position(db.nodes, num, 0);
    if let Some(k) = position(db.nodes, num, 0) {
        assert forall|i: int| 0 <= i < db.nodes.len() && (#[trigger] db.nodes[i]).num
            == num implies i == k by {
            if i != k {
                assert(db.nodes[i].num != db.nodes[k].num);
            }
        }
    }
}

/// A node that is removed has no entry, and every other node keeps its own.
pub proof fn lemma_removed(db: NodeDbView, i: int, num: NodeNum)
    requires
        db.wf(),
        0 <= i < db.nodes.len(),
    ensures
        (NodeDbView { nodes: db.nodes.remove(i), ..db }).entry(db.nodes[i].num) is None,
        num != db.nodes[i].num ==> (NodeDbView { nodes: db.nodes.remove(i), ..db }).entry(num)
            == db.entry(num),
{
    let after = NodeDbView { nodes: db.nodes.remove(i), ..db };
    lemma_remove_keeps_wf(db, i);
    lemma_position(after.nodes, num, 0);
    lemma_position(db.nodes, num, 0);
    if num != db.nodes[i].num {
        if let Some(k) = position(db.nodes, num, 0) {
            let j = if k < i {
                k
            } else {
                k - 1
            };
            assert(after.nodes[j] == db.nodes[k]);
            lemma_entry(after, num);
        }
        if let Some(k) = position(after.nodes, num, 0) {
            let j = if k < i {
                k
            } else {
                k + 1
            };
            assert(after.nodes[k] == db.nodes[j]);
        }
    }
}

} // verus!
