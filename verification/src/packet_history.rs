//! The memory of recent packets.
//!
//! Nodes rebroadcast packets to flood them through the mesh. [`PacketHistory`]
//! remembers the sender and the id of recent packets, so that each is handled
//! once, and with them what routing needs: the next hop that was asked for, the
//! highest hop limit seen, the hop limit that this node sent with, and the
//! nodes that relayed the packet.

use crate::mesh::{self, get_from, NodeNum, NO_NEXT_HOP_PREFERENCE, NO_RELAY_NODE};
use crate::message;
use crate::proto::packet::{MeshPacket, MeshPacketView};
use vstd::prelude::*;

verus! {

/// The number of relayers that a record has room for.
pub const NUM_RELAYERS: usize = 6;

/// The usual number of records.
pub const DEFAULT_CAPACITY: usize = 100;

/// The least number of records.
pub const MIN_CAPACITY: usize = 4;

const HOP_LIMIT_HIGHEST_MASK: u8 = 0x07;

const HOP_LIMIT_OUR_TX_MASK: u8 = 0x38;

const HOP_LIMIT_OUR_TX_SHIFT: u8 = 3;

/// What is remembered of a packet.
#[derive(Debug, Clone, Copy)]
pub struct PacketRecord {
    sender: NodeNum,
    id: u32,
    rx_time_ms: u64,
    next_hop: u8,
    /// The highest hop limit in bits 0 to 2, our own in bits 3 to 5.
    hop_bits: u8,
    relayed_by: [u8; 6],
}

/// What is remembered of a packet, as the contracts see it.
#[verifier::ext_equal]
pub struct RecordView {
    pub sender: NodeNum,
    pub id: u32,
    pub rx_time_ms: u64,
    pub next_hop: u8,
    /// The highest hop limit that the packet was seen with.
    pub highest_hop_limit: u8,
    /// The hop limit that this node sent the packet with, zero if it did not.
    pub our_tx_hop_limit: u8,
    /// The relayers; zero bytes are free places.
    pub relayed_by: Seq<u8>,
}

impl View for PacketRecord {
    type V = RecordView;

    closed spec fn view(&self) -> RecordView {
        RecordView {
            sender: self.sender,
            id: self.id,
            rx_time_ms: self.rx_time_ms,
            next_hop: self.next_hop,
            highest_hop_limit: self.hop_bits % 8,
            our_tx_hop_limit: self.hop_bits / 8 % 8,
            relayed_by: self.relayed_by@,
        }
    }
}

/// The relayers in a list of places: its bytes that are not zero.
pub open spec fn relayers_in(places: Seq<u8>) -> Seq<u8>
    decreases places.len(),
{
    if places.len() == 0 {
        Seq::empty()
    } else {
        let before = relayers_in(places.drop_last());
        if places.last() == 0 {
            before
        } else {
            before.push(places.last())
        }
    }
}

/// The record of a free slot.
pub open spec fn free_record() -> RecordView {
    RecordView {
        sender: 0,
        id: 0,
        rx_time_ms: 0,
        next_hop: 0,
        highest_hop_limit: 0,
        our_tx_hop_limit: 0,
        relayed_by: Seq::new(NUM_RELAYERS as nat, |i: int| 0u8),
    }
}

impl RecordView {
    /// Whether the slot is free.
    pub open spec fn is_free(self) -> bool {
        self.id == 0 && self.sender == 0
    }

    /// Whether the record is that of a packet.
    pub open spec fn is_for(self, sender: NodeNum, id: u32) -> bool {
        self.id == id && self.sender == sender
    }

    /// Whether a node relayed the packet.
    pub open spec fn relayed(self, relayer: u8) -> bool {
        relayer != 0 && self.relayed_by.contains(relayer)
    }
}

fn array_contains(a: &[u8; 6], b: u8) -> (r: bool)
    ensures
        r <==> a@.contains(b),
{
    let mut i: usize = 0;
    while i < 6
        invariant
            i <= 6,
            forall|j: int| 0 <= j < i ==> a@[j] != b,
        decreases 6 - i,
    {
        if a[i] == b {
            assert(a@[i as int] == b);
            return true;
        }
        i += 1;
    }
    false
}

impl PacketRecord {
    /// The sender of the packet.
    pub fn sender(&self) -> (r: NodeNum)
        ensures
            r == self@.sender,
    {
        self.sender
    }

    /// The id of the packet.
    pub fn id(&self) -> (r: u32)
        ensures
            r == self@.id,
    {
        self.id
    }

    /// When the packet was last received, in milliseconds.
    pub fn rx_time_ms(&self) -> (r: u64)
        ensures
            r == self@.rx_time_ms,
    {
        self.rx_time_ms
    }

    /// The next hop that the packet asked for.
    pub fn next_hop(&self) -> (r: u8)
        ensures
            r == self@.next_hop,
    {
        self.next_hop
    }

    /// The highest hop limit that the packet was seen with.
    pub fn highest_hop_limit(&self) -> (r: u8)
        ensures
            r == self@.highest_hop_limit,
            r < 8,
    {
        let bits = self.hop_bits;
        assert(bits & 0x07 == bits % 8) by (bit_vector);
        self.hop_bits & HOP_LIMIT_HIGHEST_MASK
    }

    /// The hop limit that this node sent the packet with, zero if it did not.
    pub fn our_tx_hop_limit(&self) -> (r: u8)
        ensures
            r == self@.our_tx_hop_limit,
            r < 8,
    {
        let bits = self.hop_bits;
        assert((bits & 0x38) >> 3u8 == bits / 8 % 8) by (bit_vector);
        (self.hop_bits & HOP_LIMIT_OUR_TX_MASK) >> HOP_LIMIT_OUR_TX_SHIFT
    }

    /// The nodes that relayed the packet.
    pub fn relayers(&self) -> (r: Vec<u8>)
        ensures
            r@ == relayers_in(self@.relayed_by),
    {
        let mut r: Vec<u8> = Vec::new();
        let mut i: usize = 0;
        while i < 6
            invariant
                i <= 6,
                r@ == relayers_in(self.relayed_by@.take(i as int)),
            decreases 6 - i,
        {
            let b: u8 = self.relayed_by[i];
            assert(self.relayed_by@.take(i + 1).drop_last() =~= self.relayed_by@.take(i as int));
            if b != 0 {
                r.push(b);
            }
            i += 1;
        }
        assert(self.relayed_by@.take(6) =~= self.relayed_by@);
        r
    }

    /// Whether a node relayed the packet.
    pub fn was_relayer(&self, relayer: u8) -> (r: bool)
        ensures
            r == self@.relayed(relayer),
    {
        if relayer == 0 {
            return false;
        }
        array_contains(&self.relayed_by, relayer)
    }

    fn is_empty(&self) -> (r: bool)
        ensures
            r == self@.is_free(),
    {
        self.id == 0 && self.sender == 0
    }

    fn is_for(&self, sender: NodeNum, id: u32) -> (r: bool)
        ensures
            r == self@.is_for(sender, id),
    {
        self.id == id && self.sender == sender
    }

    fn set_highest_hop_limit(&mut self, v: u8)
        requires
            v < 8,
        ensures
            final(self)@ == (RecordView { highest_hop_limit: v, ..old(self)@ }),
    {
        let bits = self.hop_bits;
        assert(((bits & !0x07) | (v & 0x07)) % 8 == v && ((bits & !0x07) | (v & 0x07)) / 8 % 8
            == bits / 8 % 8) by (bit_vector)
            requires
                v < 8,
        ;
        self.hop_bits = (self.hop_bits & !HOP_LIMIT_HIGHEST_MASK) | (v & HOP_LIMIT_HIGHEST_MASK);
    }

    fn set_our_tx_hop_limit(&mut self, v: u8)
        requires
            v < 8,
        ensures
            final(self)@ == (RecordView { our_tx_hop_limit: v, ..old(self)@ }),
    {
        let bits = self.hop_bits;
        assert(((bits & !0x38) | ((v & 0x07) << 3u8)) % 8 == bits % 8 && ((bits & !0x38) | ((v
            & 0x07) << 3u8)) / 8 % 8 == v) by (bit_vector)
            requires
                v < 8,
        ;
        let masked: u8 = (v & HOP_LIMIT_HIGHEST_MASK) << HOP_LIMIT_OUR_TX_SHIFT;
        self.hop_bits = (self.hop_bits & !HOP_LIMIT_OUR_TX_MASK) | masked;
    }
}

impl Default for PacketRecord {
    fn default() -> (r: Self)
        ensures
            r@ == free_record(),
    {
        let r = PacketRecord {
            sender: 0,
            id: 0,
            rx_time_ms: 0,
            next_hop: 0,
            hop_bits: 0,
            relayed_by: [0;6],
        };
        assert(r@ =~= free_record());
        r
    }
}

/// What is known of a packet that came in.
#[derive(Debug, Clone, Copy, PartialEq, Eq)]
pub struct SeenInfo {
    /// The packet was in the history already.
    pub seen_recently: bool,
    /// It was, and this copy has a higher hop limit than every earlier one.
    pub was_upgraded: bool,
    /// It was, and the first copy asked this node to be the next hop.
    pub we_were_next_hop: bool,
    /// It was, and the sender has fallen back from a next hop to flooding.
    pub was_fallback: bool,
}

impl Default for SeenInfo {
    fn default() -> (r: Self)
        ensures
            r == unseen(),
    {
        SeenInfo {
            seen_recently: false,
            was_upgraded: false,
            we_were_next_hop: false,
            was_fallback: false,
        }
    }
}

/// What is known of a packet that is new.
pub open spec fn unseen() -> SeenInfo {
    SeenInfo {
        seen_recently: false,
        was_upgraded: false,
        we_were_next_hop: false,
        was_fallback: false,
    }
}

// ---------------------------------------------------------------------------
// Where a record stands
// ---------------------------------------------------------------------------

/// The first slot from `k` on that holds the record of a packet.
pub open spec fn slot_for(recs: Seq<RecordView>, sender: NodeNum, id: u32, k: nat) -> Option<int>
    decreases recs.len() - k,
{
    if k >= recs.len() {
        None
    } else if recs[k as int].is_for(sender, id) {
        Some(k as int)
    } else {
        slot_for(recs, sender, id, k + 1)
    }
}

/// The first free slot from `k` on.
pub open spec fn free_slot(recs: Seq<RecordView>, k: nat) -> Option<int>
    decreases recs.len() - k,
{
    if k >= recs.len() {
        None
    } else if recs[k as int].is_free() {
        Some(k as int)
    } else {
        free_slot(recs, k + 1)
    }
}

/// The first of the first `n` slots whose record was received the longest ago.
pub open spec fn oldest_slot(recs: Seq<RecordView>, n: nat) -> int
    decreases n,
{
    if n <= 1 {
        0
    } else {
        let oldest = oldest_slot(recs, (n - 1) as nat);
        if recs[n - 1].rx_time_ms < recs[oldest].rx_time_ms {
            n - 1
        } else {
            oldest
        }
    }
}

/// The slot that a record goes to: the one that holds the record of the same
/// packet, or else the first free one, or else the oldest.
pub open spec fn slot_to_use(recs: Seq<RecordView>, r: RecordView) -> int {
    match slot_for(recs, r.sender, r.id, 0) {
        Some(i) => i,
        None => match free_slot(recs, 0) {
            Some(i) => i,
            None => oldest_slot(recs, recs.len()),
        },
    }
}

/// The record of a packet; packets without a sender or without an id have none.
pub open spec fn record_of(recs: Seq<RecordView>, sender: NodeNum, id: u32) -> Option<RecordView> {
    if sender == 0 || id == 0 {
        None
    } else {
        match slot_for(recs, sender, id, 0) {
            Some(i) => Some(recs[i]),
            None => None,
        }
    }
}

/// No packet has two records.
pub open spec fn distinct(recs: Seq<RecordView>) -> bool {
    forall|i: int, j: int|
        0 <= i < j < recs.len() && !(#[trigger] recs[i]).is_free() ==> !(
        #[trigger] recs[j]).is_for(recs[i].sender, recs[i].id)
}

/// No relayer is listed twice.
pub open spec fn listed_once(list: Seq<u8>) -> bool {
    forall|i: int, j: int|
        0 <= i < j < list.len() && #[trigger] list[i] != 0 ==> list[i] != #[trigger] list[j]
}

/// A record has a place for each of [`NUM_RELAYERS`] relayers, and none has two.
pub open spec fn tidy(places: Seq<u8>) -> bool {
    places.len() == NUM_RELAYERS && listed_once(places)
}

/// A history has at least [`MIN_CAPACITY`] slots, no packet has two records, and
/// no relayer has two places.
pub open spec fn valid(recs: Seq<RecordView>) -> bool {
    &&& recs.len() >= MIN_CAPACITY
    &&& distinct(recs)
    &&& forall|i: int| 0 <= i < recs.len() ==> tidy((#[trigger] recs[i]).relayed_by)
}

/// The populated ones of the first `n` slots.
pub open spec fn populated(recs: Seq<RecordView>, n: nat) -> Seq<int>
    decreases n,
{
    if n == 0 {
        Seq::empty()
    } else {
        let before = populated(recs, (n - 1) as nat);
        if recs[n - 1].is_free() {
            before
        } else {
            before.push(n - 1)
        }
    }
}

/// The slot of a packet is the first one with its record, if there is one.
pub proof fn lemma_slot_for(recs: Seq<RecordView>, sender: NodeNum, id: u32, k: nat)
    ensures
        match slot_for(recs, sender, id, k) {
            Some(i) => k <= i < recs.len() && recs[i].is_for(sender, id) && forall|j: int|
                k <= j < i ==> !(#[trigger] recs[j]).is_for(sender, id),
            None => forall|j: int|
                k <= j < recs.len() ==> !(#[trigger] recs[j]).is_for(sender, id),
        },
    decreases recs.len() - k,
{
    if k < recs.len() && !recs[k as int].is_for(sender, id) {
        lemma_slot_for(recs, sender, id, k + 1);
    }
}

/// The free slot is the first one that is free, if there is one.
pub proof fn lemma_free_slot(recs: Seq<RecordView>, k: nat)
    ensures
        match free_slot(recs, k) {
            Some(i) => k <= i < recs.len() && recs[i].is_free() && forall|j: int|
                k <= j < i ==> !(#[trigger] recs[j]).is_free(),
            None => forall|j: int| k <= j < recs.len() ==> !(#[trigger] recs[j]).is_free(),
        },
    decreases recs.len() - k,
{
    if k < recs.len() && !recs[k as int].is_free() {
        lemma_free_slot(recs, k + 1);
    }
}

/// The oldest slot is the first of those that were received the longest ago.
pub proof fn lemma_oldest_slot(recs: Seq<RecordView>, n: nat)
    requires
        1 <= n <= recs.len(),
    ensures
        0 <= oldest_slot(recs, n) < n,
        forall|j: int|
            0 <= j < n ==> recs[oldest_slot(recs, n)].rx_time_ms <= (
            #[trigger] recs[j]).rx_time_ms,
        forall|j: int|
            0 <= j < oldest_slot(recs, n) ==> recs[oldest_slot(recs, n)].rx_time_ms < (
            #[trigger] recs[j]).rx_time_ms,
    decreases n,
{
    if n > 1 {
        lemma_oldest_slot(recs, (n - 1) as nat);
    }
}

/// A record goes to a slot of the history, and no packet gets a second record.
pub proof fn lemma_insertion(recs: Seq<RecordView>, r: RecordView)
    requires
        recs.len() > 0,
        distinct(recs),
    ensures
        0 <= slot_to_use(recs, r) < recs.len(),
        distinct(recs.update(slot_to_use(recs, r), r)),
{
    lemma_slot_for(recs, r.sender, r.id, 0);
    lemma_free_slot(recs, 0);
    lemma_oldest_slot(recs, recs.len());
    let k = slot_to_use(recs, r);
    let after = recs.update(k, r);
    assert forall|i: int, j: int|
        0 <= i < j < after.len() && !(#[trigger] after[i]).is_free() implies !(
    #[trigger] after[j]).is_for(after[i].sender, after[i].id) by {
        if i == k {
            assert(after[j] == recs[j]);
            assert(recs[k].is_for(r.sender, r.id) || !recs[j].is_for(r.sender, r.id));
        } else if j == k {
            assert(after[i] == recs[i]);
            assert(!recs[i].is_for(r.sender, r.id) || recs[k].is_for(r.sender, r.id));
        } else {
            assert(after[i] == recs[i] && after[j] == recs[j]);
        }
    }
}

// ---------------------------------------------------------------------------
// What a packet changes
// ---------------------------------------------------------------------------

/// The byte by which the relayer of a packet is known.
pub open spec fn relayer_of(p: MeshPacketView) -> u8 {
    (p.relay_node % 256) as u8
}

/// The hop limit of a packet: its three low bits.
pub open spec fn hop_limit_of(p: MeshPacketView) -> u8 {
    (p.hop_limit % 8) as u8
}

/// Whether a packet whose record is `s` has fallen back to flooding: it was for
/// another node than this one to forward, it is now for anyone, the node that
/// it comes from relayed it before, and neither this node nor the one that was
/// to forward it did.
pub open spec fn is_fallback(s: RecordView, p: MeshPacketView, our_num: NodeNum, us: u8) -> bool {
    &&& mesh::sender_of(p, our_num) != our_num
    &&& s.next_hop != NO_NEXT_HOP_PREFERENCE
    &&& s.next_hop != us
    &&& p.next_hop == NO_NEXT_HOP_PREFERENCE
    &&& s.relayed(relayer_of(p))
    &&& !s.relayed(us)
    &&& !s.relayed(s.next_hop)
}

/// What is known of a packet, given its record.
pub open spec fn info_of(
    stored: Option<RecordView>,
    p: MeshPacketView,
    our_num: NodeNum,
    us: u8,
) -> SeenInfo {
    match stored {
        Some(s) => SeenInfo {
            seen_recently: true,
            was_upgraded: s.highest_hop_limit < hop_limit_of(p),
            we_were_next_hop: s.next_hop == us && us != 0,
            was_fallback: is_fallback(s, p, our_num, us),
        },
        None => unseen(),
    }
}

/// Whether this node is the relayer of a packet: it is about to send it.
pub open spec fn we_relay(p: MeshPacketView, us: u8) -> bool {
    relayer_of(p) == us && us != NO_RELAY_NODE
}

/// Whether the relayer of a packet heard this node send it: this node relayed
/// it, and its hop limit is the one that this node sent with or one less.
pub open spec fn heard_us(s: RecordView, p: MeshPacketView, us: u8) -> bool {
    s.relayed(us) && (hop_limit_of(p) == s.our_tx_hop_limit || hop_limit_of(p)
        == s.our_tx_hop_limit - 1)
}

/// `list` and behind it the relayers in `places` that it does not hold yet, as
/// far as there is room.
pub open spec fn with_relayers(list: Seq<u8>, places: Seq<u8>) -> Seq<u8>
    decreases places.len(),
{
    if places.len() == 0 {
        list
    } else {
        let l = with_relayers(list, places.drop_last());
        let b = places.last();
        if b == 0 || l.contains(b) || l.len() >= NUM_RELAYERS {
            l
        } else {
            l.push(b)
        }
    }
}

/// A list of relayers, filled up with free places.
pub open spec fn as_places(list: Seq<u8>) -> Seq<u8> {
    list + Seq::new((NUM_RELAYERS - list.len()) as nat, |i: int| 0u8)
}

/// The relayer that a packet adds in front of those on record.
pub open spec fn new_relayer(stored: Option<RecordView>, p: MeshPacketView, us: u8) -> Seq<u8> {
    if we_relay(p, us) {
        seq![us]
    } else if stored matches Some(s) && heard_us(s, p, us) {
        seq![relayer_of(p)]
    } else {
        Seq::empty()
    }
}

/// The record that a packet leaves, given the one that it had: the next hop
/// stays that of the first copy, the highest hop limit never falls, and the
/// relayers are kept.
pub open spec fn new_record(
    stored: Option<RecordView>,
    p: MeshPacketView,
    rx_time_ms: u64,
    our_num: NodeNum,
    us: u8,
) -> RecordView {
    let hop_limit = hop_limit_of(p);
    let relayers = new_relayer(stored, p, us);
    RecordView {
        sender: mesh::sender_of(p, our_num),
        id: p.id,
        rx_time_ms,
        next_hop: match stored {
            Some(s) => s.next_hop,
            None => (p.next_hop % 256) as u8,
        },
        highest_hop_limit: match stored {
            Some(s) if s.highest_hop_limit > hop_limit => s.highest_hop_limit,
            _ => hop_limit,
        },
        our_tx_hop_limit: if we_relay(p, us) {
            hop_limit
        } else {
            match stored {
                Some(s) => s.our_tx_hop_limit,
                None => 0,
            }
        },
        relayed_by: as_places(
            match stored {
                Some(s) => with_relayers(relayers, s.relayed_by),
                None => relayers,
            },
        ),
    }
}

/// The time that a record is stamped with: zero stands for no record.
pub open spec fn stamp(now_ms: u64) -> u64 {
    if now_ms == 0 {
        1
    } else {
        now_ms
    }
}

/// What a packet makes of the history.
pub open spec fn history_after(
    recs: Seq<RecordView>,
    p: MeshPacketView,
    now_ms: u64,
    our_num: NodeNum,
    us: u8,
) -> Seq<RecordView> {
    if p.id == 0 {
        recs
    } else {
        let r = new_record(
            record_of(recs, mesh::sender_of(p, our_num), p.id),
            p,
            stamp(now_ms),
            our_num,
            us,
        );
        recs.update(slot_to_use(recs, r), r)
    }
}

// ---------------------------------------------------------------------------
// The history
// ---------------------------------------------------------------------------

/// A bounded memory of recent packets.
#[derive(Debug)]
pub struct PacketHistory {
    records: Vec<PacketRecord>,
}

impl View for PacketHistory {
    type V = Seq<RecordView>;

    closed spec fn view(&self) -> Seq<RecordView> {
        message::views(self.records@)
    }
}

impl PacketHistory {
    #[verifier::type_invariant]
    closed spec fn wf(self) -> bool {
        valid(self@)
    }

    /// An empty history with room for `capacity` records, at least
    /// [`MIN_CAPACITY`].
    pub fn with_capacity(capacity: usize) -> (h: Self)
        ensures
            h@.len() == if capacity < MIN_CAPACITY {
                MIN_CAPACITY
            } else {
                capacity
            },
            forall|i: int| 0 <= i < h@.len() ==> #[trigger] h@[i] == free_record(),
            valid(h@),
    {
        let cap: usize = if capacity < MIN_CAPACITY {
            MIN_CAPACITY
        } else {
            capacity
        };
        let mut records: Vec<PacketRecord> = Vec::new();
        while records.len() < cap
            invariant
                records@.len() <= cap,
                forall|i: int|
                    0 <= i < records@.len() ==> (#[trigger] records@[i])@ == free_record(),
            decreases cap - records.len(),
        {
            records.push(PacketRecord::default());
        }
        PacketHistory { records }
    }

    /// The number of slots.
    pub fn capacity(&self) -> (n: usize)
        ensures
            n == self@.len(),
    {
        self.records.len()
    }

    /// The number of records.
    pub fn len(&self) -> (n: usize)
        ensures
            n == populated(self@, self@.len()).len(),
            n <= self@.len(),
    {
        let mut n: usize = 0;
        let mut i: usize = 0;
        while i < self.records.len()
            invariant
                i <= self.records.len(),
                n == populated(self@, i as nat).len(),
                n <= i,
            decreases self.records.len() - i,
        {
            if !self.records[i].is_empty() {
                n += 1;
            }
            i += 1;
        }
        n
    }

    /// Whether there are no records.
    pub fn is_empty(&self) -> (r: bool)
        ensures
            r <==> forall|i: int| 0 <= i < self@.len() ==> (#[trigger] self@[i]).is_free(),
    {
        let mut i: usize = 0;
        while i < self.records.len()
            invariant
                i <= self.records.len(),
                forall|j: int| 0 <= j < i ==> (#[trigger] self@[j]).is_free(),
            decreases self.records.len() - i,
        {
            if !self.records[i].is_empty() {
                assert(!self@[i as int].is_free());
                return false;
            }
            i += 1;
        }
        true
    }

    /// The records, in the order of their slots.
    pub fn iter(&self) -> (r: Vec<&PacketRecord>)
        ensures
            r@.len() == populated(self@, self@.len()).len(),
            forall|k: int|
                0 <= k < r@.len() ==> (#[trigger] r@[k])@
                    == self@[populated(self@, self@.len())[k]] && tidy(r@[k]@.relayed_by),
    {
        proof {
            use_type_invariant(self);
        }
        let mut r: Vec<&PacketRecord> = Vec::new();
        let mut i: usize = 0;
        while i < self.records.len()
            invariant
                i <= self.records.len(),
                valid(self@),
                r@.len() == populated(self@, i as nat).len(),
                forall|k: int|
                    0 <= k < r@.len() ==> (#[trigger] r@[k])@
                        == self@[populated(self@, i as nat)[k]] && tidy(r@[k]@.relayed_by),
            decreases self.records.len() - i,
        {
            assert(tidy(self@[i as int].relayed_by));
            if !self.records[i].is_empty() {
                r.push(&self.records[i]);
            }
            i += 1;
        }
        r
    }

    fn position(&self, sender: NodeNum, id: u32) -> (r: Option<usize>)
        ensures
            slot_for(self@, sender, id, 0) == match r {
                Some(i) => Some(i as int),
                None => None,
            },
            r matches Some(i) ==> i < self.records@.len(),
    {
        let mut i: usize = 0;
        while i < self.records.len()
            invariant
                i <= self.records.len(),
                slot_for(self@, sender, id, 0) == slot_for(self@, sender, id, i as nat),
            decreases self.records.len() - i,
        {
            if self.records[i].is_for(sender, id) {
                return Some(i);
            }
            i += 1;
        }
        None
    }

    /// The record of a packet; packets without a sender or without an id have
    /// none.
    pub fn find(&self, sender: NodeNum, id: u32) -> (r: Option<&PacketRecord>)
        ensures
            record_of(self@, sender, id) == match r {
                Some(r) => Some(r@),
                None => None,
            },
            r matches Some(rec) ==> tidy(rec@.relayed_by),
    {
        proof {
            use_type_invariant(self);
        }
        if sender == 0 || id == 0 {
            return None;
        }
        match self.position(sender, id) {
            Some(i) => Some(&self.records[i]),
            None => None,
        }
    }

    /// Says what is known of a packet and, if `update` is set, remembers it.
    ///
    /// `our_relay_id` is the byte by which this node is known as a relayer.
    /// A packet without an id is never remembered.
    pub fn was_seen_recently(
        &mut self,
        packet: &MeshPacket,
        now_ms: u64,
        update: bool,
        our_node_num: NodeNum,
        our_relay_id: u8,
    ) -> (info: SeenInfo)
        ensures
            valid(final(self)@),
            info == if packet@.id == 0 {
                unseen()
            } else {
                info_of(
                    record_of(old(self)@, mesh::sender_of(packet@, our_node_num), packet@.id),
                    packet@,
                    our_node_num,
                    our_relay_id,
                )
            },
            final(self)@ == if update {
                history_after(old(self)@, packet@, now_ms, our_node_num, our_relay_id)
            } else {
                old(self)@
            },
    {
        proof {
            use_type_invariant(&*self);
        }
        if packet.id == 0 {
            return SeenInfo::default();
        }
        let sender: NodeNum = get_from(packet, our_node_num);
        let rx: u64 = if now_ms == 0 {
            1
        } else {
            now_ms
        };
        let stored: Option<PacketRecord> = match self.find(sender, packet.id) {
            Some(r) => Some(*r),
            None => None,
        };
        let info = packet_info(&stored, packet, our_node_num, our_relay_id);
        if update {
            let record = next_record(&stored, packet, rx, our_node_num, our_relay_id);
            proof {
                lemma_new_record_tidy(
                    message::opt_view(stored),
                    packet@,
                    rx,
                    our_node_num,
                    our_relay_id,
                );
            }
            self.insert(record);
        }
        info
    }

    /// Puts a record where it goes.
    fn insert(&mut self, r: PacketRecord)
        requires
            tidy(r@.relayed_by),
        ensures
            final(self)@ == old(self)@.update(slot_to_use(old(self)@, r@), r@),
            valid(final(self)@),
    {
        proof {
            use_type_invariant(&*self);
            lemma_insertion(self@, r@);
        }
        let slot: usize = self.slot(&r);
        let ghost after = self.records@.update(slot as int, r);
        assert(message::views(after) =~= self@.update(slot as int, r@));
        put(&mut self.records, slot, r);
        assert(self@ =~= old(self)@.update(slot as int, r@));
    }

    /// The slot that a record goes to.
    fn slot(&self, r: &PacketRecord) -> (slot: usize)
        ensures
            slot == slot_to_use(self@, r@),
            slot < self.records@.len(),
    {
        proof {
            use_type_invariant(self);
            lemma_insertion(self@, r@);
        }
        if let Some(i) = self.position(r.sender, r.id) {
            return i;
        }
        let n: usize = self.records.len();
        let mut i: usize = 0;
        while i < n
            invariant
                i <= n == self.records@.len(),
                free_slot(self@, 0) == free_slot(self@, i as nat),
                slot_for(self@, r@.sender, r@.id, 0) is None,
            decreases n - i,
        {
            if self.records[i].is_empty() {
                return i;
            }
            i += 1;
        }
        let mut oldest: usize = 0;
        let mut i: usize = 1;
        while i < n
            invariant
                1 <= i <= n == self.records@.len(),
                oldest < n,
                oldest == oldest_slot(self@, i as nat),
            decreases n - i,
        {
            if self.records[i].rx_time_ms < self.records[oldest].rx_time_ms {
                oldest = i;
            }
            i += 1;
        }
        oldest
    }

    /// Adds a relayer to the record of a packet, if there is one, if it is not
    /// there yet, and if there is room.
    pub fn add_relayer(&mut self, sender: NodeNum, id: u32, relayer: u8)
        ensures
            valid(final(self)@),
            final(self)@ == match slot_for(old(self)@, sender, id, 0) {
                Some(i) if relayer != 0 => old(self)@.update(
                    i,
                    RecordView {
                        relayed_by: place_taken(old(self)@[i].relayed_by, relayer),
                        ..old(self)@[i]
                    },
                ),
                _ => old(self)@,
            },
    {
        proof {
            use_type_invariant(&*self);
        }
        if relayer == 0 {
            return;
        }
        if let Some(i) = self.position(sender, id) {
            let mut rec = self.records[i];
            proof {
                assert(tidy(self@[i as int].relayed_by));
                lemma_place_taken_tidy(rec.relayed_by@, relayer);
            }
            take_place(&mut rec.relayed_by, relayer);
            self.replace(i, rec);
        }
    }

    /// Removes a relayer from the record of a packet.
    pub fn remove_relayer(&mut self, sender: NodeNum, id: u32, relayer: u8)
        ensures
            valid(final(self)@),
            final(self)@ == match slot_for(old(self)@, sender, id, 0) {
                Some(i) => old(self)@.update(
                    i,
                    RecordView {
                        relayed_by: places_freed(old(self)@[i].relayed_by, relayer),
                        ..old(self)@[i]
                    },
                ),
                None => old(self)@,
            },
    {
        proof {
            use_type_invariant(&*self);
        }
        if let Some(i) = self.position(sender, id) {
            let mut rec = self.records[i];
            proof {
                assert(tidy(self@[i as int].relayed_by));
                lemma_places_freed_tidy(rec.relayed_by@, relayer);
            }
            let ghost places = rec.relayed_by@;
            let ghost before = rec@;
            assert(self@[i as int] == rec@);
            let mut k: usize = 0;
            while k < 6
                invariant
                    k <= 6,
                    places.len() == 6,
                    rec@ == (RecordView { relayed_by: rec.relayed_by@, ..before }),
                    forall|j: int|
                        0 <= j < k ==> rec.relayed_by@[j] == places_freed(places, relayer)[j],
                    forall|j: int| k <= j < 6 ==> rec.relayed_by@[j] == places[j],
                decreases 6 - k,
            {
                if rec.relayed_by[k] == relayer {
                    rec.relayed_by[k] = 0;
                }
                k += 1;
            }
            assert(rec.relayed_by@ =~= places_freed(places, relayer));
            self.replace(i, rec);
        }
    }

    /// Replaces the record of a packet by another record of the same packet.
    fn replace(&mut self, i: usize, rec: PacketRecord)
        requires
            i < old(self).records@.len(),
            rec@.is_for(old(self)@[i as int].sender, old(self)@[i as int].id),
            tidy(rec@.relayed_by),
        ensures
            final(self)@ == old(self)@.update(i as int, rec@),
            valid(final(self)@),
    {
        proof {
            use_type_invariant(&*self);
            let before = self@;
            let after = before.update(i as int, rec@);
            assert forall|a: int, b: int|
                0 <= a < b < after.len() && !(#[trigger] after[a]).is_free() implies !(
            #[trigger] after[b]).is_for(after[a].sender, after[a].id) by {
                assert(after[a].is_for(before[a].sender, before[a].id));
                assert(after[b].is_for(before[b].sender, before[b].id));
            }
        }
        let ghost after = self.records@.update(i as int, rec);
        assert(message::views(after) =~= self@.update(i as int, rec@));
        put(&mut self.records, i, rec);
        assert(self@ =~= old(self)@.update(i as int, rec@));
    }
}

impl Clone for PacketHistory {
    fn clone(&self) -> (r: Self)
        ensures
            r@ == self@,
    {
        proof {
            use_type_invariant(self);
        }
        let records = self.records.clone();
        assert(message::views(records@) =~= message::views(self.records@));
        PacketHistory { records }
    }
}

impl Default for PacketHistory {
    fn default() -> (h: Self)
        ensures
            h@.len() == DEFAULT_CAPACITY,
            forall|i: int| 0 <= i < h@.len() ==> #[trigger] h@[i] == free_record(),
            valid(h@),
    {
        Self::with_capacity(DEFAULT_CAPACITY)
    }
}

fn put(records: &mut Vec<PacketRecord>, i: usize, r: PacketRecord)
    requires
        i < old(records)@.len(),
    ensures
        final(records)@ == old(records)@.update(i as int, r),
    no_unwind
{
    records[i] = r;
}

/// The first free place from `k` on.
pub open spec fn first_free(places: Seq<u8>, k: nat) -> Option<int>
    decreases places.len() - k,
{
    if k >= places.len() {
        None
    } else if places[k as int] == 0 {
        Some(k as int)
    } else {
        first_free(places, k + 1)
    }
}

/// `places` with a relayer in its first free place, unless it holds the relayer
/// already or is full.
pub open spec fn place_taken(places: Seq<u8>, relayer: u8) -> Seq<u8> {
    if places.contains(relayer) {
        places
    } else {
        match first_free(places, 0) {
            Some(k) => places.update(k, relayer),
            None => places,
        }
    }
}

/// `places` with every place of a relayer freed.
pub open spec fn places_freed(places: Seq<u8>, relayer: u8) -> Seq<u8> {
    Seq::new(
        places.len(),
        |k: int|
            if places[k] == relayer {
                0
            } else {
                places[k]
            },
    )
}

fn take_place(places: &mut [u8; 6], relayer: u8)
    ensures
        final(places)@ == place_taken(old(places)@, relayer),
{
    if array_contains(places, relayer) {
        return;
    }
    let mut k: usize = 0;
    while k < 6
        invariant
            k <= 6,
            places@ == old(places)@,
            !places@.contains(relayer),
            first_free(places@, 0) == first_free(places@, k as nat),
        decreases 6 - k,
    {
        if places[k] == 0 {
            places[k] = relayer;
            return;
        }
        k += 1;
    }
}

fn packet_info(
    stored: &Option<PacketRecord>,
    packet: &MeshPacket,
    our_node_num: NodeNum,
    our_relay_id: u8,
) -> (info: SeenInfo)
    ensures
        info == info_of(message::opt_view(*stored), packet@, our_node_num, our_relay_id),
{
    match stored {
        Some(s) => {
            let relay_node: u8 = (packet.relay_node % 256) as u8;
            let hop_limit: u8 = (packet.hop_limit % 8) as u8;
            let was_fallback = get_from(packet, our_node_num) != our_node_num && s.next_hop
                != NO_NEXT_HOP_PREFERENCE && s.next_hop != our_relay_id && packet.next_hop
                == NO_NEXT_HOP_PREFERENCE as u32 && s.was_relayer(relay_node) && !s.was_relayer(
                our_relay_id,
            ) && !s.was_relayer(s.next_hop);
            SeenInfo {
                seen_recently: true,
                was_upgraded: s.highest_hop_limit() < hop_limit,
                we_were_next_hop: s.next_hop == our_relay_id && our_relay_id != 0,
                was_fallback,
            }
        },
        None => SeenInfo::default(),
    }
}

fn next_record(
    stored: &Option<PacketRecord>,
    packet: &MeshPacket,
    rx_time_ms: u64,
    our_node_num: NodeNum,
    our_relay_id: u8,
) -> (r: PacketRecord)
    ensures
        r@ == new_record(
            message::opt_view(*stored),
            packet@,
            rx_time_ms,
            our_node_num,
            our_relay_id,
        ),
{
    let hop_limit: u8 = (packet.hop_limit % 8) as u8;
    let relay_node: u8 = (packet.relay_node % 256) as u8;
    let ghost sv = message::opt_view(*stored);
    let mut new = PacketRecord {
        sender: get_from(packet, our_node_num),
        id: packet.id,
        rx_time_ms,
        next_hop: (packet.next_hop % 256) as u8,
        hop_bits: 0,
        relayed_by: [0;6],
    };
    new.set_highest_hop_limit(hop_limit);
    let we_will_relay = relay_node == our_relay_id && our_relay_id != NO_RELAY_NODE;
    let ghost mut list: Seq<u8> = Seq::empty();
    assert(new.relayed_by@ =~= as_places(list));
    if we_will_relay {
        new.set_our_tx_hop_limit(hop_limit);
        new.relayed_by[0] = our_relay_id;
        proof {
            list = seq![our_relay_id];
        }
        assert(new.relayed_by@ =~= as_places(list));
    }
    if let Some(s) = stored {
        if s.highest_hop_limit() > hop_limit {
            new.set_highest_hop_limit(s.highest_hop_limit());
        }
        new.next_hop = s.next_hop;
        let mut start: usize = if we_will_relay {
            1
        } else {
            0
        };
        if !we_will_relay {
            let our_tx: u8 = s.our_tx_hop_limit();
            if s.was_relayer(our_relay_id) && (hop_limit == our_tx || (our_tx > 0 && hop_limit
                == our_tx - 1)) {
                new.relayed_by[0] = relay_node;
                start = 1;
                proof {
                    list = seq![relay_node];
                }
                assert(new.relayed_by@ =~= as_places(list));
            }
            new.set_our_tx_hop_limit(our_tx);
        }
        assert(list =~= new_relayer(sv, packet@, our_relay_id));
        merge_relayers(&mut new, start, &s.relayed_by, Ghost(list));
    }
    assert(list =~= new_relayer(sv, packet@, our_relay_id));
    new
}

/// Adds the relayers in `places` behind the first `start` of a record.
fn merge_relayers(
    new: &mut PacketRecord,
    start: usize,
    places: &[u8; 6],
    Ghost(list): Ghost<Seq<u8>>,
)
    requires
        old(new).relayed_by@ == as_places(list),
        start == list.len() <= NUM_RELAYERS,
    ensures
        final(new)@ == (RecordView {
            relayed_by: as_places(with_relayers(list, places@)),
            ..old(new)@
        }),
{
    let mut write: usize = start;
    let mut k: usize = 0;
    assert(places@.take(0) =~= Seq::empty());
    while k < 6
        invariant
            k <= 6,
            write == with_relayers(list, places@.take(k as int)).len() <= NUM_RELAYERS,
            new.relayed_by@ == as_places(with_relayers(list, places@.take(k as int))),
            new@ == (RecordView { relayed_by: new.relayed_by@, ..old(new)@ }),
        decreases 6 - k,
    {
        let b: u8 = places[k];
        let ghost l = with_relayers(list, places@.take(k as int));
        assert(places@.take(k + 1).drop_last() =~= places@.take(k as int));
        assert(b != 0 ==> (as_places(l).contains(b) <==> l.contains(b))) by {
            if l.contains(b) {
                let j = choose|j: int| 0 <= j < l.len() && l[j] == b;
                assert(as_places(l)[j] == b);
            }
            if as_places(l).contains(b) && b != 0 {
                let j = choose|j: int| 0 <= j < as_places(l).len() && as_places(l)[j] == b;
                assert(l[j] == b);
            }
        }
        if b != 0 && !array_contains(&new.relayed_by, b) && write < NUM_RELAYERS {
            new.relayed_by[write] = b;
            write += 1;
            assert(new.relayed_by@ =~= as_places(l.push(b)));
        }
        k += 1;
    }
    assert(places@.take(6) =~= places@);
}

// ---------------------------------------------------------------------------
// Laws
// ---------------------------------------------------------------------------

/// A packet that was remembered is found: the next copy of it is reported as
/// seen. The history keeps its capacity and stays valid.
pub proof fn lemma_remembered(
    recs: Seq<RecordView>,
    p: MeshPacketView,
    now_ms: u64,
    our_num: NodeNum,
    us: u8,
)
    requires
        valid(recs),
        p.id != 0,
        mesh::sender_of(p, our_num) != 0,
    ensures
        valid(history_after(recs, p, now_ms, our_num, us)),
        history_after(recs, p, now_ms, our_num, us).len() == recs.len(),
        record_of(
            history_after(recs, p, now_ms, our_num, us),
            mesh::sender_of(p, our_num),
            p.id,
        ) == Some(
            new_record(
                record_of(recs, mesh::sender_of(p, our_num), p.id),
                p,
                stamp(now_ms),
                our_num,
                us,
            ),
        ),
        info_of(
            record_of(
                history_after(recs, p, now_ms, our_num, us),
                mesh::sender_of(p, our_num),
                p.id,
            ),
            p,
            our_num,
            us,
        ).seen_recently,
{
    lemma_history_valid(recs, p, now_ms, our_num, us);
    let sender = mesh::sender_of(p, our_num);
    let r = new_record(record_of(recs, sender, p.id), p, stamp(now_ms), our_num, us);
    let k = slot_to_use(recs, r);
    let after = recs.update(k, r);
    lemma_insertion(recs, r);
    lemma_slot_for(after, sender, p.id, 0);
    assert(after[k].is_for(sender, p.id));
    let j = slot_for(after, sender, p.id, 0)->0;
    if j != k {
        assert(!after[k].is_for(after[j].sender, after[j].id));
    }
}

/// Remembering a packet forgets no other, except the one whose record was the
/// oldest when there was no free slot.
pub proof fn lemma_others_kept(
    recs: Seq<RecordView>,
    p: MeshPacketView,
    now_ms: u64,
    our_num: NodeNum,
    us: u8,
    sender: NodeNum,
    id: u32,
)
    requires
        valid(recs),
        p.id != 0,
        sender != mesh::sender_of(p, our_num) || id != p.id,
        record_of(recs, sender, id) is Some,
    ensures
        record_of(history_after(recs, p, now_ms, our_num, us), sender, id) == record_of(
            recs,
            sender,
            id,
        ) || (slot_for(recs, mesh::sender_of(p, our_num), p.id, 0) is None && free_slot(recs, 0)
            is None && recs[oldest_slot(recs, recs.len())].is_for(sender, id) && record_of(
            history_after(recs, p, now_ms, our_num, us),
            sender,
            id,
        ) is None),
{
    let from = mesh::sender_of(p, our_num);
    let r = new_record(record_of(recs, from, p.id), p, stamp(now_ms), our_num, us);
    let k = slot_to_use(recs, r);
    let after = recs.update(k, r);
    lemma_insertion(recs, r);
    lemma_slot_for(recs, sender, id, 0);
    lemma_slot_for(after, sender, id, 0);
    lemma_slot_for(recs, from, p.id, 0);
    lemma_free_slot(recs, 0);
    let i = slot_for(recs, sender, id, 0)->0;
    if i != k {
        assert(after[i] == recs[i]);
        let j = slot_for(after, sender, id, 0)->0;
        assert(j != k);
        assert(after[j] == recs[j]);
        if j < i {
            assert(!recs[j].is_for(sender, id));
        }
    } else {
        assert forall|j: int| 0 <= j < after.len() implies !(#[trigger] after[j]).is_for(
            sender,
            id,
        ) by {
            if j != k {
                assert(after[j] == recs[j]);
                if j < k {
                    assert(!recs[k].is_for(recs[j].sender, recs[j].id) || recs[j].is_free());
                } else {
                    assert(!recs[j].is_for(recs[k].sender, recs[k].id) || recs[k].is_free());
                }
            }
        }
    }
}

/// The highest hop limit on record never falls, and is at least that of the
/// packet; the next hop on record is that of the first copy.
pub proof fn lemma_record_grows(
    s: RecordView,
    p: MeshPacketView,
    now_ms: u64,
    our_num: NodeNum,
    us: u8,
)
    ensures
        new_record(Some(s), p, now_ms, our_num, us).highest_hop_limit >= s.highest_hop_limit,
        new_record(Some(s), p, now_ms, our_num, us).highest_hop_limit >= hop_limit_of(p),
        new_record(Some(s), p, now_ms, our_num, us).next_hop == s.next_hop,
        info_of(Some(s), p, our_num, us).was_upgraded <==> new_record(
            Some(s),
            p,
            now_ms,
            our_num,
            us,
        ).highest_hop_limit > s.highest_hop_limit,
{
}

/// A relayer that was added to a record with a free place is on record.
pub proof fn lemma_place_taken(places: Seq<u8>, relayer: u8)
    requires
        places.contains(relayer) || places.contains(0),
    ensures
        place_taken(places, relayer).contains(relayer),
        place_taken(places, relayer).len() == places.len(),
{
    if !places.contains(relayer) {
        lemma_first_free(places, 0);
        let k = first_free(places, 0)->0;
        assert(place_taken(places, relayer)[k] == relayer);
    }
}

proof fn lemma_first_free(places: Seq<u8>, k: nat)
    ensures
        match first_free(places, k) {
            Some(i) => k <= i < places.len() && places[i] == 0,
            None => forall|j: int| k <= j < places.len() ==> places[j] != 0,
        },
    decreases places.len() - k,
{
    if k < places.len() && places[k as int] != 0 {
        lemma_first_free(places, k + 1);
    }
}

/// A relayer that was removed is not on record, and the others still are.
pub proof fn lemma_places_freed(places: Seq<u8>, relayer: u8, other: u8)
    requires
        relayer != 0,
        other != relayer,
        other != 0,
    ensures
        !places_freed(places, relayer).contains(relayer),
        places_freed(places, relayer).contains(other) <==> places.contains(other),
{
    let freed = places_freed(places, relayer);
    if places.contains(other) {
        let k = choose|k: int| 0 <= k < places.len() && places[k] == other;
        assert(freed[k] == other);
    }
    if freed.contains(other) {
        let k = choose|k: int| 0 <= k < freed.len() && freed[k] == other;
        assert(places[k] == other);
    }
}

proof fn lemma_with_relayers_tidy(list: Seq<u8>, places: Seq<u8>)
    requires
        list.len() <= NUM_RELAYERS,
        listed_once(list),
    ensures
        with_relayers(list, places).len() <= NUM_RELAYERS,
        listed_once(with_relayers(list, places)),
    decreases places.len(),
{
    if places.len() > 0 {
        lemma_with_relayers_tidy(list, places.drop_last());
        let l = with_relayers(list, places.drop_last());
        let b = places.last();
        let all = l.push(b);
        if !l.contains(b) {
            assert forall|i: int, j: int|
                0 <= i < j < all.len() && #[trigger] all[i] != 0 implies all[i]
                != #[trigger] all[j] by {
                assert(all[i] == l[i]);
                if j == l.len() {
                    assert(l.contains(l[i]));
                } else {
                    assert(all[j] == l[j]);
                }
            }
        }
    }
}

/// A record that a packet leaves gives no relayer two places.
pub proof fn lemma_new_record_tidy(
    stored: Option<RecordView>,
    p: MeshPacketView,
    rx_time_ms: u64,
    our_num: NodeNum,
    us: u8,
)
    ensures
        tidy(new_record(stored, p, rx_time_ms, our_num, us).relayed_by),
{
    let first = new_relayer(stored, p, us);
    let list = match stored {
        Some(s) => with_relayers(first, s.relayed_by),
        None => first,
    };
    if stored is Some {
        lemma_with_relayers_tidy(first, stored->0.relayed_by);
    }
    let places = as_places(list);
    assert forall|i: int, j: int|
        0 <= i < j < places.len() && #[trigger] places[i] != 0 implies places[i]
        != #[trigger] places[j] by {
        assert(i < list.len() && places[i] == list[i]);
        if j < list.len() {
            assert(places[j] == list[j]);
        }
    }
}

/// A relayer that is added gets one place.
pub proof fn lemma_place_taken_tidy(places: Seq<u8>, relayer: u8)
    requires
        tidy(places),
    ensures
        tidy(place_taken(places, relayer)),
{
    lemma_first_free(places, 0);
    let after = place_taken(places, relayer);
    if !places.contains(relayer) && first_free(places, 0) is Some {
        let k = first_free(places, 0)->0;
        assert forall|i: int, j: int|
            0 <= i < j < after.len() && #[trigger] after[i] != 0 implies after[i]
            != #[trigger] after[j] by {
            if i != k {
                assert(after[i] == places[i] && places.contains(places[i]));
            }
            if j != k {
                assert(after[j] == places[j] && places.contains(places[j]));
            }
        }
    }
}

/// Freeing places gives no relayer two.
pub proof fn lemma_places_freed_tidy(places: Seq<u8>, relayer: u8)
    requires
        tidy(places),
    ensures
        tidy(places_freed(places, relayer)),
{
    let after = places_freed(places, relayer);
    assert forall|i: int, j: int|
        0 <= i < j < after.len() && #[trigger] after[i] != 0 implies after[i]
        != #[trigger] after[j] by {
        assert(places[i] != places[j]);
    }
}

proof fn lemma_relayers_in(places: Seq<u8>)
    requires
        listed_once(places),
    ensures
        relayers_in(places).len() <= places.len(),
        relayers_in(places).no_duplicates(),
        forall|b: u8|
            #[trigger] relayers_in(places).contains(b) <==> b != 0 && places.contains(b),
    decreases places.len(),
{
    if places.len() > 0 {
        let rest = places.drop_last();
        let b = places.last();
        let before = relayers_in(rest);
        assert forall|i: int, j: int|
            0 <= i < j < rest.len() && #[trigger] rest[i] != 0 implies rest[i]
            != #[trigger] rest[j] by {
            assert(places[i] != places[j]);
        }
        lemma_relayers_in(rest);
        assert(b != 0 ==> !rest.contains(b)) by {
            if rest.contains(b) {
                let i = choose|i: int| 0 <= i < rest.len() && rest[i] == b;
                assert(places[i] == b);
                assert(places[places.len() - 1] == b);
            }
        }
        assert forall|c: u8| #[trigger] relayers_in(places).contains(c) <==> c != 0
            && places.contains(c) by {
            if places.contains(c) {
                let i = choose|i: int| 0 <= i < places.len() && places[i] == c;
                if i < rest.len() {
                    assert(rest[i] == c);
                    assert(rest.contains(c));
                }
            }
            if before.contains(c) {
                let i = choose|i: int| 0 <= i < rest.len() && rest[i] == c;
                assert(places[i] == c);
                let j = choose|j: int| 0 <= j < before.len() && before[j] == c;
                assert(relayers_in(places)[j] == c);
            }
            if c == b && b != 0 {
                assert(relayers_in(places)[before.len() as int] == b);
                assert(places[places.len() - 1] == b);
            }
            if relayers_in(places).contains(c) {
                let j = choose|j: int|
                    0 <= j < relayers_in(places).len() && relayers_in(places)[j] == c;
                if j < before.len() {
                    assert(before[j] == c);
                    assert(before.contains(c));
                }
            }
        }
        if b != 0 {
            assert(!before.contains(b));
            let all = before.push(b);
            assert forall|i: int, j: int| 0 <= i < j < all.len() implies all[i] != all[j] by {
                assert(before.contains(before[i]));
            }
        }
    }
}

/// The relayers of a record of a history are not zero, are listed once each and
/// are at most [`NUM_RELAYERS`]; they are those that relayed the packet.
pub proof fn lemma_relayers(recs: Seq<RecordView>, i: int)
    requires
        valid(recs),
        0 <= i < recs.len(),
    ensures
        relayers_in(recs[i].relayed_by).len() <= NUM_RELAYERS,
        relayers_in(recs[i].relayed_by).no_duplicates(),
        !relayers_in(recs[i].relayed_by).contains(0),
        forall|b: u8|
            recs[i].relayed(b) <==> #[trigger] relayers_in(recs[i].relayed_by).contains(b),
{
    assert(tidy(recs[i].relayed_by));
    lemma_relayers_in(recs[i].relayed_by);
}

/// What several packets, each with the time that it came in, make of the history.
pub open spec fn history_after_all(
    recs: Seq<RecordView>,
    ps: Seq<(MeshPacketView, u64)>,
    our_num: NodeNum,
    us: u8,
) -> Seq<RecordView>
    decreases ps.len(),
{
    if ps.len() == 0 {
        recs
    } else {
        history_after(
            history_after_all(recs, ps.drop_last(), our_num, us),
            ps.last().0,
            ps.last().1,
            our_num,
            us,
        )
    }
}

/// Whether a packet is a copy of that with a sender and an id.
pub open spec fn is_copy(p: MeshPacketView, our_num: NodeNum, sender: NodeNum, id: u32) -> bool {
    mesh::sender_of(p, our_num) == sender && p.id == id
}

/// The highest hop limit of the copies of a packet among several packets.
pub open spec fn highest_of(
    ps: Seq<(MeshPacketView, u64)>,
    our_num: NodeNum,
    sender: NodeNum,
    id: u32,
) -> u8
    decreases ps.len(),
{
    if ps.len() == 0 {
        0
    } else {
        let before = highest_of(ps.drop_last(), our_num, sender, id);
        let p = ps.last().0;
        if is_copy(p, our_num, sender, id) && hop_limit_of(p) > before {
            hop_limit_of(p)
        } else {
            before
        }
    }
}

proof fn lemma_history_valid(
    recs: Seq<RecordView>,
    p: MeshPacketView,
    now_ms: u64,
    our_num: NodeNum,
    us: u8,
)
    requires
        valid(recs),
    ensures
        valid(history_after(recs, p, now_ms, our_num, us)),
{
    if p.id != 0 {
        let stored = record_of(recs, mesh::sender_of(p, our_num), p.id);
        let r = new_record(stored, p, stamp(now_ms), our_num, us);
        lemma_insertion(recs, r);
        lemma_new_record_tidy(stored, p, stamp(now_ms), our_num, us);
        let after = recs.update(slot_to_use(recs, r), r);
        assert forall|i: int| 0 <= i < after.len() implies tidy(
            (#[trigger] after[i]).relayed_by,
        ) by {
            if i != slot_to_use(recs, r) {
                assert(after[i] == recs[i]);
            }
        }
    }
}

/// The highest hop limit on record is the highest of all copies of the packet
/// that came in since its record was made, whatever else came in between, as
/// long as the record was not pushed out.
pub proof fn lemma_highest_hop_limit(
    recs: Seq<RecordView>,
    ps: Seq<(MeshPacketView, u64)>,
    our_num: NodeNum,
    us: u8,
    sender: NodeNum,
    id: u32,
)
    requires
        valid(recs),
        sender != 0,
        id != 0,
        record_of(recs, sender, id) is None,
        ps.len() > 0,
        is_copy(ps[0].0, our_num, sender, id),
        forall|k: int|
            1 <= k <= ps.len() ==> record_of(
                #[trigger] history_after_all(recs, ps.take(k), our_num, us),
                sender,
                id,
            ) is Some,
    ensures
        valid(history_after_all(recs, ps, our_num, us)),
        record_of(history_after_all(recs, ps, our_num, us), sender, id) is Some,
        record_of(history_after_all(recs, ps, our_num, us), sender, id)->0.highest_hop_limit
            == highest_of(ps, our_num, sender, id),
    decreases ps.len(),
{
    let rest = ps.drop_last();
    let p = ps.last().0;
    let now_ms = ps.last().1;
    assert(ps.take(ps.len() as int) =~= ps);
    assert(record_of(history_after_all(recs, ps.take(ps.len() as int), our_num, us), sender, id)
        is Some);
    let before = history_after_all(recs, rest, our_num, us);
    if ps.len() == 1 {
        assert(rest =~= Seq::empty());
        lemma_history_valid(recs, p, now_ms, our_num, us);
        lemma_remembered(recs, p, now_ms, our_num, us);
        assert(highest_of(rest, our_num, sender, id) == 0);
    } else {
        assert(rest[0] == ps[0]);
        assert forall|k: int| 1 <= k <= rest.len() implies record_of(
            #[trigger] history_after_all(recs, rest.take(k), our_num, us),
            sender,
            id,
        ) is Some by {
            assert(rest.take(k) =~= ps.take(k));
        }
        lemma_highest_hop_limit(recs, rest, our_num, us, sender, id);
        lemma_history_valid(before, p, now_ms, our_num, us);
        if p.id != 0 {
            if is_copy(p, our_num, sender, id) {
                lemma_remembered(before, p, now_ms, our_num, us);
            } else {
                lemma_others_kept(before, p, now_ms, our_num, us, sender, id);
            }
        }
    }
}

/// The record of a packet is the one in the history with its sender and its id, if
/// there is one; a packet without a sender or without an id has none.
pub proof fn lemma_record_of(recs: Seq<RecordView>, sender: NodeNum, id: u32)
    requires
        valid(recs),
    ensures
        sender == 0 || id == 0 ==> record_of(recs, sender, id) is None,
        record_of(recs, sender, id) matches Some(r) ==> r.sender == sender && r.id == id
            && recs.contains(r),
        sender != 0 && id != 0 ==> forall|i: int|
            0 <= i < recs.len() && (#[trigger] recs[i]).sender == sender && recs[i].id == id
                ==> record_of(recs, sender, id) == Some(recs[i]),
        sender != 0 && id != 0 && record_of(recs, sender, id) is None ==> forall|i: int|
            0 <= i < recs.len() ==> (#[trigger] recs[i]).sender != sender || recs[i].id != id,
{
    lemma_slot_for(recs, sender, id, 0);
    if let Some(k) = slot_for(recs, sender, id, 0) {
        assert(recs.contains(recs[k]));
        if sender != 0 && id != 0 {
            assert forall|i: int|
                0 <= i < recs.len() && (#[trigger] recs[i]).sender == sender && recs[i].id
                    == id implies i == k by {
                if i < k {
                    assert(!recs[k].is_for(recs[i].sender, recs[i].id));
                } else if k < i {
                    assert(!recs[i].is_for(recs[k].sender, recs[k].id));
                }
            }
        }
    }
    if sender != 0 && id != 0 && slot_for(recs, sender, id, 0) is None {
        assert forall|i: int| 0 <= i < recs.len() implies (#[trigger] recs[i]).sender != sender
            || recs[i].id != id by {
            assert(!recs[i].is_for(sender, id));
        }
    }
}

/// What is reported of a packet by its record. A packet without a record is new, and
/// nothing else is reported of it. One with a record was seen; it is an upgrade if and
/// only if its hop limit is above the highest on record; and this node was to be the
/// next hop if and only if its byte, which is not zero, is the next hop on record.
pub proof fn lemma_info(
    stored: Option<RecordView>,
    p: MeshPacketView,
    our_num: NodeNum,
    us: u8,
)
    ensures
        info_of(stored, p, our_num, us).seen_recently <==> stored is Some,
        stored is None ==> {
            let info = info_of(stored, p, our_num, us);
            !info.was_upgraded && !info.we_were_next_hop && !info.was_fallback
        },
        stored matches Some(s) ==> {
            let info = info_of(stored, p, our_num, us);
            &&& info.was_upgraded <==> s.highest_hop_limit < p.hop_limit % 8
            &&& info.we_were_next_hop <==> us != 0 && us == s.next_hop
            &&& info.was_fallback ==> !info.we_were_next_hop
        },
{
}

/// When a packet is reported to have fallen back to flooding: another node sent it, it
/// asked a third node to forward it, it now asks none, the relayer of this copy relayed
/// it before, and neither this node nor the node that was asked did. Each of these is
/// needed, and together they are enough.
pub proof fn lemma_fallback(s: RecordView, p: MeshPacketView, our_num: NodeNum, us: u8)
    ensures
        ({
            let relayer = (p.relay_node % 256) as u8;
            let reported = info_of(Some(s), p, our_num, us).was_fallback;
            &&& p.from == 0 || p.from == our_num ==> !reported
            &&& s.next_hop == 0 ==> !reported
            &&& s.next_hop == us ==> !reported
            &&& p.next_hop != 0 ==> !reported
            &&& relayer == 0 || !s.relayed_by.contains(relayer) ==> !reported
            &&& us != 0 && s.relayed_by.contains(us) ==> !reported
            &&& s.relayed_by.contains(s.next_hop) ==> !reported
            &&& p.from != 0 && p.from != our_num && s.next_hop != 0 && s.next_hop != us
                && p.next_hop == 0 && relayer != 0 && s.relayed_by.contains(relayer) && (us == 0
                || !s.relayed_by.contains(us)) && !s.relayed_by.contains(s.next_hop) ==> reported
        }),
{
}

/// The record that a packet leaves names its sender and its id and the time that it
/// came in, with 1 in place of 0.
pub proof fn lemma_record_names(
    stored: Option<RecordView>,
    p: MeshPacketView,
    now_ms: u64,
    our_num: NodeNum,
    us: u8,
)
    ensures
        ({
            let r = new_record(stored, p, stamp(now_ms), our_num, us);
            &&& r.id == p.id
            &&& p.from != 0 ==> r.sender == p.from
            &&& p.from == 0 ==> r.sender == our_num
            &&& now_ms != 0 ==> r.rx_time_ms == now_ms
            &&& now_ms == 0 ==> r.rx_time_ms == 1
            &&& stored is None ==> r.next_hop as int == p.next_hop % 256
            &&& stored is None ==> r.highest_hop_limit as int == p.hop_limit % 8
            &&& stored matches Some(s) ==> r.next_hop == s.next_hop
            &&& stored matches Some(s) ==> r.highest_hop_limit as int == if s.highest_hop_limit
                > p.hop_limit % 8 {
                s.highest_hop_limit as int
            } else {
                (p.hop_limit % 8) as int
            }
        }),
{
}

proof fn lemma_as_places(list: Seq<u8>, b: u8)
    requires
        list.len() <= NUM_RELAYERS,
        b != 0,
    ensures
        as_places(list).contains(b) <==> list.contains(b),
{
    let places = as_places(list);
    if list.contains(b) {
        let i = choose|i: int| 0 <= i < list.len() && list[i] == b;
        assert(places[i] == b);
    }
    if places.contains(b) {
        let i = choose|i: int| 0 <= i < places.len() && places[i] == b;
        assert(i < list.len() && list[i] == b);
    }
}

proof fn lemma_with_relayers(list: Seq<u8>, places: Seq<u8>)
    ensures
        with_relayers(list, places).len() <= list.len() + relayers_in(places).len(),
        forall|b: u8| list.contains(b) ==> #[trigger] with_relayers(list, places).contains(b),
        forall|b: u8| #[trigger]
            with_relayers(list, places).contains(b) ==> list.contains(b) || (b != 0
                && places.contains(b)),
        list.len() + relayers_in(places).len() <= NUM_RELAYERS ==> forall|b: u8|
            b != 0 && places.contains(b) ==> #[trigger] with_relayers(list, places).contains(b),
    decreases places.len(),
{
    if places.len() > 0 {
        let rest = places.drop_last();
        let b = places.last();
        let l = with_relayers(list, rest);
        let all = with_relayers(list, places);
        lemma_with_relayers(list, rest);
        assert forall|c: u8| l.contains(c) implies #[trigger] all.contains(c) by {
            let i = choose|i: int| 0 <= i < l.len() && l[i] == c;
            assert(all[i] == c);
        }
        assert forall|c: u8| #[trigger] all.contains(c) implies list.contains(c) || (c != 0
            && places.contains(c)) by {
            let i = choose|i: int| 0 <= i < all.len() && all[i] == c;
            if i < l.len() {
                assert(l[i] == c);
                assert(l.contains(c));
                if rest.contains(c) {
                    let j = choose|j: int| 0 <= j < rest.len() && rest[j] == c;
                    assert(places[j] == c);
                }
            } else {
                assert(places[places.len() - 1] == c);
            }
        }
        if list.len() + relayers_in(places).len() <= NUM_RELAYERS {
            assert forall|c: u8| c != 0 && places.contains(c) implies #[trigger] all.contains(
                c,
            ) by {
                let j = choose|j: int| 0 <= j < places.len() && places[j] == c;
                if j < rest.len() {
                    assert(rest[j] == c);
                    assert(rest.contains(c));
                    assert(l.contains(c));
                } else if !l.contains(b) {
                    assert(all[l.len() as int] == b);
                }
            }
        }
    }
}

/// Which relayers a packet leaves on record. A copy that this node is about to send puts
/// this node on record, with the hop limit that it is sent with; every other copy leaves
/// that hop limit as it was. A copy of another node puts its relayer on record only if
/// this node relayed the packet before and the copy has the hop limit that this node
/// sent with or one less, so that the relayer must have heard this node. No one else is
/// put on record, and no one who was is dropped while there is a free place.
pub proof fn lemma_relayers_recorded(
    stored: Option<RecordView>,
    p: MeshPacketView,
    now_ms: u64,
    our_num: NodeNum,
    us: u8,
    b: u8,
)
    requires
        stored matches Some(s) ==> tidy(s.relayed_by),
        b != 0,
    ensures
        ({
            let r = new_record(stored, p, now_ms, our_num, us);
            let relayer = (p.relay_node % 256) as u8;
            let ours = us != 0 && relayer == us;
            &&& ours ==> r.relayed(us) && r.our_tx_hop_limit as int == p.hop_limit % 8
            &&& !ours ==> (stored matches Some(s) ==> r.our_tx_hop_limit == s.our_tx_hop_limit)
            &&& !ours && stored is None ==> r.our_tx_hop_limit == 0
            &&& stored is None ==> (r.relayed(b) <==> ours && b == us)
            &&& stored matches Some(s) ==> {
                let heard = us != 0 && s.relayed_by.contains(us) && (p.hop_limit % 8
                    == s.our_tx_hop_limit || p.hop_limit % 8 == s.our_tx_hop_limit - 1);
                &&& r.relayed(b) ==> s.relayed_by.contains(b) || (b == relayer && (ours || heard))
                &&& !ours && heard && b == relayer ==> r.relayed(b)
                &&& s.relayed_by.contains(b) && relayers_in(s.relayed_by).len() < 6 ==> r.relayed(b)
            }
        }),
{
    let first = new_relayer(stored, p, us);
    let list = match stored {
        Some(s) => with_relayers(first, s.relayed_by),
        None => first,
    };
    if let Some(s) = stored {
        lemma_with_relayers(first, s.relayed_by);
        lemma_with_relayers_tidy(first, s.relayed_by);
    }
    lemma_as_places(list, b);
    if us != 0 {
        lemma_as_places(list, us);
    }
    if first.len() > 0 {
        assert(first[0] == first[0] && first.contains(first[0]));
        assert(list.contains(first[0]));
    }
}

/// A relayer that is added is on record afterwards if it was before or a place was free,
/// and adding it changes nothing for any other: those on record stay, no one else
/// appears, and a full record stays as it is.
pub proof fn lemma_place_taken_others(places: Seq<u8>, relayer: u8, other: u8)
    requires
        relayer != 0,
        other != 0,
        other != relayer,
    ensures
        place_taken(places, relayer).contains(relayer) <==> places.contains(relayer)
            || places.contains(0),
        place_taken(places, relayer).contains(other) <==> places.contains(other),
        !places.contains(0) ==> place_taken(places, relayer) == places,
{
    let after = place_taken(places, relayer);
    lemma_first_free(places, 0);
    if !places.contains(relayer) {
        if let Some(k) = first_free(places, 0) {
            assert(after[k] == relayer);
            assert(places.contains(places[k]));
            if places.contains(other) {
                let i = choose|i: int| 0 <= i < places.len() && places[i] == other;
                assert(after[i] == other);
            }
            if after.contains(other) {
                let i = choose|i: int| 0 <= i < after.len() && after[i] == other;
                assert(i != k && places[i] == other);
            }
        } else {
            assert(!places.contains(0));
        }
    }
}

/// Remembering a packet forgets no other while a slot is free or the packet itself was
/// on record. Otherwise it forgets exactly one, and no record is older than that.
pub proof fn lemma_forgotten_is_oldest(
    recs: Seq<RecordView>,
    p: MeshPacketView,
    now_ms: u64,
    our_num: NodeNum,
    us: u8,
    sender: NodeNum,
    id: u32,
)
    requires
        valid(recs),
        p.id != 0,
        sender != mesh::sender_of(p, our_num) || id != p.id,
        record_of(recs, sender, id) is Some,
    ensures
        record_of(history_after(recs, p, now_ms, our_num, us), sender, id) == record_of(
            recs,
            sender,
            id,
        ) || {
            &&& record_of(history_after(recs, p, now_ms, our_num, us), sender, id) is None
            &&& forall|i: int|
                0 <= i < recs.len() ==> (#[trigger] recs[i]).id != 0 || recs[i].sender != 0
            &&& record_of(recs, mesh::sender_of(p, our_num), p.id) is None
            &&& forall|i: int|
                0 <= i < recs.len() ==> record_of(recs, sender, id)->0.rx_time_ms <= (
                #[trigger] recs[i]).rx_time_ms
        },
{
    lemma_others_kept(recs, p, now_ms, our_num, us, sender, id);
    lemma_free_slot(recs, 0);
    lemma_oldest_slot(recs, recs.len());
    let k = oldest_slot(recs, recs.len());
    lemma_record_of(recs, sender, id);
    if recs[k].is_for(sender, id) {
        assert(record_of(recs, sender, id) == Some(recs[k]));
    }
    if free_slot(recs, 0) is None {
        assert forall|i: int| 0 <= i < recs.len() implies (#[trigger] recs[i]).id != 0
            || recs[i].sender != 0 by {
            assert(!recs[i].is_free());
        }
    }
}

/// The records that are listed and counted are those of the slots that are not free,
/// each once, in the order of the slots.
pub proof fn lemma_populated(recs: Seq<RecordView>, n: nat)
    requires
        n <= recs.len(),
    ensures
        forall|k: int|
            0 <= k < populated(recs, n).len() ==> 0 <= #[trigger] populated(recs, n)[k] < n && (
            recs[populated(recs, n)[k]].id != 0 || recs[populated(recs, n)[k]].sender != 0),
        forall|k: int, l: int|
            0 <= k < l < populated(recs, n).len() ==> populated(recs, n)[k] < populated(recs, n)[l],
        forall|i: int|
            0 <= i < n && ((#[trigger] recs[i]).id != 0 || recs[i].sender != 0) ==> populated(
                recs,
                n,
            ).contains(i),
    decreases n,
{
    if n > 0 {
        let m = (n - 1) as nat;
        lemma_populated(recs, m);
        let before = populated(recs, m);
        let all = populated(recs, n);
        assert forall|i: int|
            0 <= i < n && ((#[trigger] recs[i]).id != 0
                || recs[i].sender != 0) implies all.contains(i) by {
            if i < m {
                let k = choose|k: int| 0 <= k < before.len() && before[k] == i;
                assert(all[k] == i);
            } else {
                assert(all[all.len() - 1] == i);
            }
        }
    }
}

proof fn lemma_highest_of(
    ps: Seq<(MeshPacketView, u64)>,
    our_num: NodeNum,
    sender: NodeNum,
    id: u32,
)
    ensures
        forall|k: int|
            0 <= k < ps.len() && is_copy((#[trigger] ps[k]).0, our_num, sender, id) ==> ps[k].0.hop_limit
                % 8 <= highest_of(ps, our_num, sender, id),
        highest_of(ps, our_num, sender, id) > 0 ==> exists|k: int|
            0 <= k < ps.len() && is_copy((#[trigger] ps[k]).0, our_num, sender, id)
                && ps[k].0.hop_limit % 8 == highest_of(ps, our_num, sender, id),
    decreases ps.len(),
{
    if ps.len() > 0 {
        let rest = ps.drop_last();
        lemma_highest_of(rest, our_num, sender, id);
        let before = highest_of(rest, our_num, sender, id);
        let now = highest_of(ps, our_num, sender, id);
        assert forall|k: int|
            0 <= k < ps.len() && is_copy(
                (#[trigger] ps[k]).0,
                our_num,
                sender,
                id,
            ) implies ps[k].0.hop_limit % 8 <= now by {
            if k < rest.len() {
                assert(rest[k] == ps[k]);
            }
        }
        if now > 0 {
            if now == before {
                let k = choose|k: int|
                    0 <= k < rest.len() && is_copy((#[trigger] rest[k]).0, our_num, sender, id)
                        && rest[k].0.hop_limit % 8 == before;
                assert(ps[k] == rest[k]);
            } else {
                assert(is_copy(ps[ps.len() - 1].0, our_num, sender, id));
            }
        }
    }
}

/// The next hop on record is that of the first copy that was remembered, whatever came in
/// since, as long as the record was not pushed out.
proof fn lemma_first_next_hop(
    recs: Seq<RecordView>,
    ps: Seq<(MeshPacketView, u64)>,
    our_num: NodeNum,
    us: u8,
    sender: NodeNum,
    id: u32,
)
    requires
        valid(recs),
        sender != 0,
        id != 0,
        record_of(recs, sender, id) is None,
        ps.len() > 0,
        is_copy(ps[0].0, our_num, sender, id),
        forall|k: int|
            1 <= k <= ps.len() ==> record_of(
                #[trigger] history_after_all(recs, ps.take(k), our_num, us),
                sender,
                id,
            ) is Some,
    ensures
        record_of(history_after_all(recs, ps, our_num, us), sender, id) matches Some(r)
            && r.next_hop as int == ps[0].0.next_hop % 256,
    decreases ps.len(),
{
    let rest = ps.drop_last();
    let p = ps.last().0;
    let now_ms = ps.last().1;
    assert(ps.take(ps.len() as int) =~= ps);
    assert(record_of(history_after_all(recs, ps.take(ps.len() as int), our_num, us), sender, id)
        is Some);
    let before = history_after_all(recs, rest, our_num, us);
    if ps.len() == 1 {
        assert(rest =~= Seq::empty());
        lemma_remembered(recs, p, now_ms, our_num, us);
    } else {
        assert(rest[0] == ps[0]);
        assert forall|k: int| 1 <= k <= rest.len() implies record_of(
            #[trigger] history_after_all(recs, rest.take(k), our_num, us),
            sender,
            id,
        ) is Some by {
            assert(rest.take(k) =~= ps.take(k));
        }
        lemma_first_next_hop(recs, rest, our_num, us, sender, id);
        lemma_highest_hop_limit(recs, rest, our_num, us, sender, id);
        if p.id != 0 {
            if is_copy(p, our_num, sender, id) {
                lemma_remembered(before, p, now_ms, our_num, us);
            } else {
                lemma_others_kept(before, p, now_ms, our_num, us, sender, id);
            }
        }
    }
}

/// What is reported of a copy `q` of a packet, by the copies `ps` that were remembered
/// before it, with other packets among them, as long as the record was not pushed out.
/// It was seen. This node was to be the next hop if and only if the first copy asked for
/// its byte, which is not zero; so it never was for a packet that asked for another
/// node. The copy is an upgrade if and only if its hop limit is above that of every
/// copy before it.
pub proof fn lemma_copy_reported(
    recs: Seq<RecordView>,
    ps: Seq<(MeshPacketView, u64)>,
    q: MeshPacketView,
    our_num: NodeNum,
    us: u8,
    sender: NodeNum,
    id: u32,
)
    requires
        valid(recs),
        sender != 0,
        id != 0,
        record_of(recs, sender, id) is None,
        ps.len() > 0,
        is_copy(ps[0].0, our_num, sender, id),
        is_copy(q, our_num, sender, id),
        forall|k: int|
            1 <= k <= ps.len() ==> record_of(
                #[trigger] history_after_all(recs, ps.take(k), our_num, us),
                sender,
                id,
            ) is Some,
    ensures
        ({
            let info = info_of(
                record_of(history_after_all(recs, ps, our_num, us), sender, id),
                q,
                our_num,
                us,
            );
            &&& info.seen_recently
            &&& info.we_were_next_hop <==> us != 0 && us as int == ps[0].0.next_hop % 256
            &&& info.was_upgraded <==> forall|k: int|
                0 <= k < ps.len() && is_copy((#[trigger] ps[k]).0, our_num, sender, id)
                    ==> ps[k].0.hop_limit % 8 < q.hop_limit % 8
        }),
{
    lemma_first_next_hop(recs, ps, our_num, us, sender, id);
    lemma_highest_hop_limit(recs, ps, our_num, us, sender, id);
    lemma_highest_of(ps, our_num, sender, id);
    let r = record_of(history_after_all(recs, ps, our_num, us), sender, id)->0;
    lemma_info(Some(r), q, our_num, us);
    let highest = highest_of(ps, our_num, sender, id);
    if highest > 0 {
        let k = choose|k: int|
            0 <= k < ps.len() && is_copy((#[trigger] ps[k]).0, our_num, sender, id)
                && ps[k].0.hop_limit % 8 == highest;
        assert(is_copy(ps[k].0, our_num, sender, id));
    } else {
        assert(is_copy(ps[0].0, our_num, sender, id));
    }
}

/// A packet that comes in twice: the first time it is new, the second time it was seen,
/// is no upgrade, and this node was to be the next hop if and only if the packet asks for
/// its byte.
pub proof fn lemma_seen_twice(
    recs: Seq<RecordView>,
    p: MeshPacketView,
    now_ms: u64,
    our_num: NodeNum,
    us: u8,
)
    requires
        valid(recs),
        p.id != 0,
        mesh::sender_of(p, our_num) != 0,
        forall|i: int|
            0 <= i < recs.len() ==> (#[trigger] recs[i]).id != p.id || recs[i].sender
                != mesh::sender_of(p, our_num),
    ensures
        ({
            let sender = mesh::sender_of(p, our_num);
            let first = info_of(record_of(recs, sender, p.id), p, our_num, us);
            let after = history_after(recs, p, now_ms, our_num, us);
            let second = info_of(record_of(after, sender, p.id), p, our_num, us);
            &&& !first.seen_recently
            &&& second.seen_recently
            &&& !second.was_upgraded
            &&& second.we_were_next_hop <==> us != 0 && us as int == p.next_hop % 256
            &&& !second.was_fallback
        }),
{
    let sender = mesh::sender_of(p, our_num);
    lemma_slot_for(recs, sender, p.id, 0);
    lemma_remembered(recs, p, now_ms, our_num, us);
    let r = new_record(None, p, stamp(now_ms), our_num, us);
    lemma_info(Some(r), p, our_num, us);
    lemma_record_names(None, p, now_ms, our_num, us);
    let relayer = (p.relay_node % 256) as u8;
    if relayer != 0 {
        lemma_relayers_recorded(None, p, stamp(now_ms), our_num, us, relayer);
    }
    lemma_fallback(r, p, our_num, us);
}

/// A packet without an id is never remembered.
pub proof fn lemma_no_id_not_remembered(
    recs: Seq<RecordView>,
    p: MeshPacketView,
    now_ms: u64,
    our_num: NodeNum,
    us: u8,
)
    requires
        p.id == 0,
    ensures
        history_after(recs, p, now_ms, our_num, us) == recs,
{
}

} // verus!
