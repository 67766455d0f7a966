//! A simulated platform, all of it in memory: a clock, a source of random bytes
//! that can be replayed, and radios that hear each other.

use crate::hal::{
    Clock, QueueStatus, RadioError, ReceivedPacket, ReceivedPacketOf, ReceivedPacketView, Rng,
    RxMeta,
};
use crate::mesh::NodeNum;
use crate::proto::packet::{MeshPacket, MeshPacketView};
use crate::wire;
use rand_chacha::ChaCha8Rng;
use rand_core::{RngCore, SeedableRng};
use std::collections::{BTreeMap, VecDeque};
use std::time::Instant;
use vstd::prelude::*;

verus! {

broadcast use vstd::std_specs::btree::group_btree_axioms;

// ---------------------------------------------------------------------------
// The clock
// ---------------------------------------------------------------------------

/// `std::time::Instant`, a point in time.
#[verifier::external_type_specification]
#[verifier::external_body]
pub struct ExInstant(std::time::Instant);

/// `Instant::now`, the present. Nothing is claimed of it.
pub assume_specification[ std::time::Instant::now ]() -> std::time::Instant
;

/// `Instant::elapsed`, the time since then. Nothing is claimed of it.
pub assume_specification[ std::time::Instant::elapsed ](
    origin: &std::time::Instant,
) -> std::time::Duration
;

/// `Duration::as_millis`, the whole milliseconds of a span of time. Nothing is
/// claimed of it.
pub assume_specification[ std::time::Duration::as_millis ](span: &std::time::Duration) -> u128
;

/// A number of milliseconds as a clock shows it, `u64::MAX` where it is too large.
pub fn shown_millis(elapsed: u128) -> (r: u64)
    ensures
        r == if elapsed <= u64::MAX {
            elapsed as int
        } else {
            u64::MAX as int
        },
{
    if elapsed <= u64::MAX as u128 {
        elapsed as u64
    } else {
        u64::MAX
    }
}

/// A clock that follows real time or is set by hand.
#[derive(Debug)]
pub struct SimClock {
    mode: Mode,
}

#[derive(Debug)]
enum Mode {
    Wall { origin: Instant },
    Manual { counter: u64 },
}

impl SimClock {
    /// What a clock that is set by hand shows; `None` where real time drives it.
    pub closed spec fn reading(&self) -> Option<u64> {
        match self.mode {
            Mode::Wall { .. } => None,
            Mode::Manual { counter } => Some(counter),
        }
    }

    /// A clock that counts real time from now on.
    pub fn from_now() -> (r: Self)
        ensures
            r.reading() is None,
    {
        SimClock { mode: Mode::Wall { origin: Instant::now() } }
    }

    /// A clock that is set by hand and shows `ms`.
    pub fn manual(ms: u64) -> (r: Self)
        ensures
            r.reading() == Some(ms),
    {
        SimClock { mode: Mode::Manual { counter: ms } }
    }

    /// Moves a clock that is set by hand on, past its last value to zero. Leaves
    /// one that follows real time alone.
    pub fn advance(&mut self, delta_ms: u64)
        ensures
            match old(self).reading() {
                Some(ms) => final(self).reading() == Some(
                    ((ms + delta_ms) % 0x1_0000_0000_0000_0000) as u64,
                ),
                None => *final(self) == *old(self),
            },
    {
        if let Mode::Manual { counter } = self.mode {
            self.mode = Mode::Manual { counter: counter.wrapping_add(delta_ms) };
        }
    }

    /// Sets a clock that is set by hand. Leaves one that follows real time alone.
    pub fn set(&mut self, ms: u64)
        ensures
            match old(self).reading() {
                Some(_) => final(self).reading() == Some(ms),
                None => *final(self) == *old(self),
            },
    {
        if let Mode::Manual { .. } = self.mode {
            self.mode = Mode::Manual { counter: ms };
        }
    }
}

impl Clock for SimClock {
    open spec fn may_read(&self, ms: u64) -> bool {
        self.reading() matches Some(shown) ==> ms == shown
    }

    fn millis(&self) -> (r: u64) {
        match &self.mode {
            Mode::Wall { origin } => shown_millis(origin.elapsed().as_millis()),
            Mode::Manual { counter } => *counter,
        }
    }
}

// ---------------------------------------------------------------------------
// Random bytes
// ---------------------------------------------------------------------------

/// The number of words after which the stream of ChaCha8 starts anew.
pub const STREAM_WORDS: u128 = 0x10_0000_0000_0000_0000;

/// The word at `pos` of the ChaCha8 stream that `seed` starts.
pub uninterp spec fn chacha8_word(seed: u64, pos: u128) -> u32;

/// The position `n` words after `pos`.
pub open spec fn moved(pos: u128, n: nat) -> u128 {
    ((pos + n) % STREAM_WORDS as int) as u128
}

/// The number of words that `n` bytes take up, the last perhaps in part.
pub open spec fn words_for(n: nat) -> nat {
    (n + 3) / 4
}

/// The first `n` bytes of a stream from `pos` on: its words, the lowest byte of
/// each first.
pub open spec fn stream(seed: u64, pos: u128, n: nat) -> Seq<u8> {
    Seq::new(n, |i: int| wire::le32(chacha8_word(seed, moved(pos, i as nat / 4)))[i % 4])
}

/// The state of a source: what its stream was started with, and the word that comes
/// next.
pub open spec fn stream_state(seed: u64, pos: u128) -> Seq<int> {
    seq![seed as int, pos as int]
}

/// The generator of the ChaCha8 stream.
#[verifier::external_type_specification]
#[verifier::external_body]
pub struct ExChaCha8Rng(rand_chacha::ChaCha8Rng);

/// The seed whose stream a generator holds.
pub uninterp spec fn chacha8_seed(rng: ChaCha8Rng) -> u64;

/// The word of its stream that a generator gives next.
pub uninterp spec fn chacha8_position(rng: ChaCha8Rng) -> u128;

/// Calls `ChaCha8Rng::seed_from_u64`, which starts the stream of a seed at its
/// first word.
#[verifier::external_body]
fn chacha8_seeded(seed: u64) -> (r: ChaCha8Rng)
    ensures
        chacha8_seed(r) == seed,
        chacha8_position(r) == 0,
{
    ChaCha8Rng::seed_from_u64(seed)
}

/// Calls the `clone` of `ChaCha8Rng`, which gives a generator at the same place of
/// the same stream.
#[verifier::external_body]
fn chacha8_cloned(rng: &ChaCha8Rng) -> (r: ChaCha8Rng)
    ensures
        chacha8_seed(r) == chacha8_seed(*rng),
        chacha8_position(r) == chacha8_position(*rng),
{
    rng.clone()
}

/// Calls `RngCore::next_u32` of `ChaCha8Rng`, which takes the next word of the
/// stream. The stream starts anew after its last word.
#[verifier::external_body]
fn chacha8_next_u32(rng: &mut ChaCha8Rng) -> (r: u32)
    ensures
        r == chacha8_word(chacha8_seed(*old(rng)), moved(chacha8_position(*old(rng)), 0)),
        chacha8_seed(*final(rng)) == chacha8_seed(*old(rng)),
        chacha8_position(*final(rng)) == moved(chacha8_position(*old(rng)), 1),
    no_unwind
{
    rng.next_u32()
}

/// Calls `RngCore::next_u64` of `ChaCha8Rng`, which takes the next two words of the
/// stream, the low one first.
#[verifier::external_body]
fn chacha8_next_u64(rng: &mut ChaCha8Rng) -> (r: u64)
    ensures
        r == chacha8_word(chacha8_seed(*old(rng)), moved(chacha8_position(*old(rng)), 0))
            + 0x1_0000_0000 * chacha8_word(
            chacha8_seed(*old(rng)),
            moved(chacha8_position(*old(rng)), 1),
        ),
        chacha8_seed(*final(rng)) == chacha8_seed(*old(rng)),
        chacha8_position(*final(rng)) == moved(chacha8_position(*old(rng)), 2),
    no_unwind
{
    rng.next_u64()
}

/// Calls `RngCore::fill_bytes` of `ChaCha8Rng`, which writes the next words of the
/// stream, the lowest byte of each first. A word that is written in part is used up.
#[verifier::external_body]
fn chacha8_fill(rng: &mut ChaCha8Rng, dest: &mut [u8])
    ensures
        final(dest)@ == stream(
            chacha8_seed(*old(rng)),
            chacha8_position(*old(rng)),
            old(dest)@.len(),
        ),
        chacha8_seed(*final(rng)) == chacha8_seed(*old(rng)),
        chacha8_position(*final(rng)) == moved(
            chacha8_position(*old(rng)),
            words_for(old(dest)@.len()),
        ),
    no_unwind
{
    rng.fill_bytes(dest)
}

/// A source of random bytes that gives the same bytes for the same seed.
#[derive(Debug)]
pub struct SimRng {
    inner: ChaCha8Rng,
}

impl Clone for SimRng {
    fn clone(&self) -> (r: Self)
        ensures
            r.seed() == self.seed(),
            r.position() == self.position(),
    {
        proof {
            use_type_invariant(self);
        }
        SimRng { inner: chacha8_cloned(&self.inner) }
    }
}

impl SimRng {
    /// What the stream was started with.
    pub closed spec fn seed(&self) -> u64 {
        chacha8_seed(self.inner)
    }

    /// The word of the stream that comes next.
    pub closed spec fn position(&self) -> u128 {
        chacha8_position(self.inner)
    }

    #[verifier::type_invariant]
    spec fn wf(&self) -> bool {
        chacha8_position(self.inner) < STREAM_WORDS
    }

    /// The source that `seed` starts.
    pub fn seed_from_u64(seed: u64) -> (r: Self)
        ensures
            r.seed() == seed,
            r.position() == 0,
    {
        SimRng { inner: chacha8_seeded(seed) }
    }
}

/// Moving on in two steps is moving on by their sum.
proof fn lemma_moved(pos: u128, m: nat, n: nat)
    ensures
        moved(moved(pos, m), n) == moved(pos, m + n),
{
    let w = STREAM_WORDS as int;
    vstd::arithmetic::div_mod::lemma_add_mod_noop((pos + m) as int, n as int, w);
    vstd::arithmetic::div_mod::lemma_add_mod_noop((pos + m) % w, n as int, w);
    vstd::arithmetic::div_mod::lemma_mod_twice((pos + m) as int, w);
}

/// A stream of whole words and what follows it make one stream.
pub proof fn lemma_stream_concat(seed: u64, pos: u128, m: nat, n: nat)
    requires
        m % 4 == 0,
    ensures
        stream(seed, pos, m + n) == stream(seed, pos, m) + stream(
            seed,
            moved(pos, words_for(m)),
            n,
        ),
        moved(pos, words_for(m + n)) == moved(moved(pos, words_for(m)), words_for(n)),
{
    let whole = stream(seed, pos, m + n);
    let rest = stream(seed, moved(pos, words_for(m)), n);
    lemma_moved(pos, words_for(m), words_for(n));
    assert(words_for(m + n) == words_for(m) + words_for(n));
    assert forall|i: int| 0 <= i < m + n implies whole[i] == (stream(seed, pos, m) + rest)[i] by {
        if i >= m {
            let j = (i - m) as nat;
            lemma_moved(pos, words_for(m), j / 4);
            assert(i as nat / 4 == words_for(m) + j / 4);
            assert(i % 4 == (i - m) % 4);
        }
    }
    assert(whole =~= stream(seed, pos, m) + rest);
}

/// Sources with the same seed that have given equally many words give the same
/// bytes, and stay alike.
pub proof fn lemma_same_seed(
    a: SimRng,
    b: SimRng,
    a_after: Seq<int>,
    b_after: Seq<int>,
    x: Seq<u8>,
    y: Seq<u8>,
)
    requires
        a.seed() == b.seed(),
        a.position() == b.position(),
        a.gives(a_after, x),
        b.gives(b_after, y),
        x.len() == y.len(),
    ensures
        x == y,
        a_after == b_after,
{
}

impl Rng for SimRng {
    open spec fn state(&self) -> Seq<int> {
        stream_state(self.seed(), self.position())
    }

    open spec fn gives(&self, after: Seq<int>, bytes: Seq<u8>) -> bool {
        &&& after == stream_state(
            self.seed(),
            moved(self.position(), words_for(bytes.len())),
        )
        &&& bytes == stream(self.seed(), self.position(), bytes.len())
    }

    fn fill(&mut self, dest: &mut [u8]) {
        chacha8_fill(&mut self.inner, dest);
    }

    fn next_u32(&mut self) -> (r: u32)
        ensures
            r == chacha8_word(old(self).seed(), old(self).position()),
    {
        proof {
            use_type_invariant(&*self);
        }
        let r: u32 = chacha8_next_u32(&mut self.inner);
        proof {
            let b = wire::le32(r);
            wire::lemma_le32(r);
            assert(b =~= stream(old(self).seed(), old(self).position(), 4));
            assert((*old(self)).gives((*self).state(), b));
        }
        r
    }

    fn next_u64(&mut self) -> (r: u64)
        ensures
            r == chacha8_word(old(self).seed(), old(self).position()) + 0x1_0000_0000
                * chacha8_word(old(self).seed(), moved(old(self).position(), 1)),
    {
        proof {
            use_type_invariant(&*self);
        }
        let ghost seed = self.seed();
        let ghost pos = self.position();
        let r: u64 = chacha8_next_u64(&mut self.inner);
        proof {
            let low = chacha8_word(seed, moved(pos, 0));
            let high = chacha8_word(seed, moved(pos, 1));
            let b = wire::le32(low) + wire::le32(high);
            wire::lemma_le32(low);
            wire::lemma_le32(high);
            assert(b.take(4) =~= wire::le32(low));
            assert(b.skip(4) =~= wire::le32(high));
            assert(b =~= stream(seed, pos, 8));
            assert((*old(self)).gives((*self).state(), b));
        }
        r
    }
}

// ---------------------------------------------------------------------------
// Radios
// ---------------------------------------------------------------------------

/// The received signal strength of every packet, in dBm.
pub const SIM_RSSI: i32 = -60;

/// The bits of the signal-to-noise ratio of every packet, 10 dB.
pub const SIM_SNR: u32 = 0x4120_0000;

/// What a bus holds: the packets that wait for each of its radios, the oldest
/// first, and the number of packets sent so far.
#[verifier::ext_equal]
pub struct BusView {
    /// The packets that wait, by the radio that will fetch them.
    pub queues: Map<NodeNum, Seq<ReceivedPacketView>>,
    /// The number of packets sent, `u64::MAX` once there are that many.
    pub rx_time: u64,
}

/// The packets of a queue.
pub open spec fn queued(q: VecDeque<ReceivedPacket>) -> Seq<ReceivedPacketView> {
    q@.map_values(|p: ReceivedPacket| p@)
}

/// The count of packets after one more.
pub open spec fn next_time(rx_time: u64) -> u64 {
    if rx_time == u64::MAX {
        u64::MAX
    } else {
        (rx_time + 1) as u64
    }
}

/// A packet as every radio receives it.
pub open spec fn heard(packet: MeshPacketView, rx_time: u64) -> ReceivedPacketView {
    ReceivedPacketOf { packet, meta: RxMeta { rssi: SIM_RSSI, snr: SIM_SNR, rx_time } }
}

/// A bus after `sender` sent a packet: every other radio hears it, whomever it is
/// for.
pub open spec fn sent(bus: BusView, sender: NodeNum, packet: MeshPacketView) -> BusView {
    let rx_time = next_time(bus.rx_time);
    BusView {
        queues: bus.queues.map_entries(
            |n: NodeNum, q: Seq<ReceivedPacketView>|
                if n == sender {
                    q
                } else {
                    q.push(heard(packet, rx_time))
                },
        ),
        rx_time,
    }
}

/// A bus after the radio `n` fetched a packet.
pub open spec fn fetched(bus: BusView, n: NodeNum) -> BusView {
    if bus.queues.contains_key(n) && bus.queues[n].len() > 0 {
        BusView { queues: bus.queues.insert(n, bus.queues[n].skip(1)), rx_time: bus.rx_time }
    } else {
        bus
    }
}

/// The air that radios share: what one of them sends, all others receive.
#[derive(Debug)]
pub struct SimRadioBus {
    queues: BTreeMap<NodeNum, VecDeque<ReceivedPacket>>,
    rx_time: u64,
}

impl View for SimRadioBus {
    type V = BusView;

    closed spec fn view(&self) -> BusView {
        BusView {
            queues: self.queues@.map_values(|q: VecDeque<ReceivedPacket>| queued(q)),
            rx_time: self.rx_time,
        }
    }
}

impl SimRadioBus {
    /// A bus without radios.
    pub fn new() -> (r: Self)
        ensures
            r@ == (BusView { queues: Map::empty(), rx_time: 0 }),
    {
        let r = SimRadioBus { queues: BTreeMap::new(), rx_time: 0 };
        assert(r@.queues =~= Map::empty());
        r
    }

    /// Adds the radio of a node. If it was there before, what waits for it is lost.
    pub fn attach(&mut self, node_num: NodeNum) -> (r: SimRadio)
        ensures
            final(self)@.queues == old(self)@.queues.insert(node_num, Seq::empty()),
            final(self)@.rx_time == old(self)@.rx_time,
            r.number() == node_num,
            r.status() == QueueStatus::unknown(),
    {
        let q: VecDeque<ReceivedPacket> = VecDeque::new();
        assert(queued(q) =~= Seq::empty());
        self.queues.insert(node_num, q);
        assert(self@.queues =~= old(self)@.queues.insert(node_num, Seq::empty()));
        SimRadio { node_num, last_status: QueueStatus::default() }
    }

    /// Takes the radio of a node off the bus.
    pub fn detach(&mut self, node_num: NodeNum)
        ensures
            final(self)@.queues == old(self)@.queues.remove(node_num),
            final(self)@.rx_time == old(self)@.rx_time,
    {
        let _ = self.queues.remove(&node_num);
        assert(self@.queues =~= old(self)@.queues.remove(node_num));
    }

    /// The number of radios on the bus.
    pub fn attached_count(&self) -> (r: usize)
        ensures
            r == self@.queues.dom().len(),
    {
        assert(self@.queues.dom() =~= self.queues@.dom());
        self.queues.len()
    }

    /// The nodes whose radios are on the bus.
    fn nodes(&self) -> (r: Vec<NodeNum>)
        ensures
            r@.no_duplicates(),
            forall|n: NodeNum| r@.contains(n) <==> self.queues@.contains_key(n),
    {
        let mut r: Vec<NodeNum> = Vec::new();
        let ghost keys = vstd::std_specs::iter::IteratorSpec::remaining(
            &vstd::std_specs::btree::spec_keys_iter(&self.queues),
        );
        for n in it: self.queues.keys()
            invariant
                keys == it.seq(),
                r@.len() == it.index(),
                forall|i: int| 0 <= i < r@.len() ==> r@[i] == *(#[trigger] keys[i]),
        {
            r.push(*n);
        }
        proof {
            assert(r@ =~= keys.unref());
            assert forall|n: NodeNum| r@.contains(n) <==> self.queues@.contains_key(n) by {
                assert(r@.to_set().contains(n) <==> r@.contains(n));
            }
            assert forall|i: int, j: int|
                0 <= i < r@.len() && 0 <= j < r@.len() && i != j implies r@[i] != r@[j] by {
                assert(keys[i] != keys[j]);
            }
        }
        r
    }

    fn deliver(&mut self, sender: NodeNum, packet: &MeshPacket)
        ensures
            final(self)@ == sent(old(self)@, sender, packet@),
    {
        if self.rx_time < u64::MAX {
            self.rx_time = self.rx_time + 1;
        }
        let rx = ReceivedPacketOf {
            packet: packet.clone(),
            meta: RxMeta { rssi: SIM_RSSI, snr: SIM_SNR, rx_time: self.rx_time },
        };
        let nodes = self.nodes();
        let ghost before = self.queues@;
        let mut i: usize = 0;
        while i < nodes.len()
            invariant
                i <= nodes@.len(),
                nodes@.no_duplicates(),
                forall|n: NodeNum| nodes@.contains(n) <==> before.contains_key(n),
                self.queues@.dom() == before.dom(),
                self.rx_time == next_time(old(self).rx_time),
                rx@ == heard(packet@, self.rx_time),
                forall|j: int|
                    0 <= j < i ==> queued(self.queues@[#[trigger] nodes@[j]]) == (if nodes@[j]
                        == sender {
                        queued(before[nodes@[j]])
                    } else {
                        queued(before[nodes@[j]]).push(rx@)
                    }),
                forall|j: int|
                    i <= j < nodes@.len() ==> self.queues@[#[trigger] nodes@[j]]
                        == before[nodes@[j]],
            decreases nodes@.len() - i,
        {
            let n: NodeNum = nodes[i];
            assert(nodes@.contains(n));
            if n != sender {
                if let Some(mut q) = self.queues.remove(&n) {
                    let ghost waiting = q;
                    q.push_back(rx.clone());
                    assert(queued(q) =~= queued(waiting).push(rx@));
                    self.queues.insert(n, q);
                }
            }
            assert(self.queues@.dom() =~= before.dom());
            i = i + 1;
        }
        proof {
            let want = sent(old(self)@, sender, packet@);
            assert forall|n: NodeNum| before.contains_key(n) implies self@.queues[n]
                == want.queues[n] by {
                assert(nodes@.contains(n));
                let j = nodes@.index_of(n);
                assert(nodes@[j] == n);
            }
            assert(self@.queues =~= want.queues);
        }
    }

    fn fetch(&mut self, n: NodeNum) -> (r: Option<ReceivedPacket>)
        ensures
            final(self)@ == fetched(old(self)@, n),
            r is Some <==> old(self)@.queues.contains_key(n) && old(self)@.queues[n].len() > 0,
            r matches Some(p) ==> p@ == old(self)@.queues[n][0],
    {
        match self.queues.remove(&n) {
            Some(mut q) => {
                let ghost waiting = q;
                let r = q.pop_front();
                assert(r is Some ==> queued(q) =~= queued(waiting).skip(1));
                self.queues.insert(n, q);
                assert(self@.queues =~= fetched(old(self)@, n).queues);
                r
            },
            None => {
                assert(self@.queues =~= old(self)@.queues);
                None
            },
        }
    }
}

impl Default for SimRadioBus {
    fn default() -> (r: Self)
        ensures
            r@ == (BusView { queues: Map::empty(), rx_time: 0 }),
    {
        SimRadioBus::new()
    }
}

/// One radio of a bus.
#[derive(Debug)]
pub struct SimRadio {
    node_num: NodeNum,
    last_status: QueueStatus,
}

impl SimRadio {
    /// The node that the radio belongs to.
    pub closed spec fn number(&self) -> NodeNum {
        self.node_num
    }

    /// The state of the transmit queue.
    pub closed spec fn status(&self) -> QueueStatus {
        self.last_status
    }

    /// The node that the radio belongs to.
    pub fn node_num(&self) -> (r: NodeNum)
        ensures
            r == self.number(),
    {
        self.node_num
    }

    /// The number of packets that wait for this radio.
    pub fn rx_queue_len(&self, bus: &SimRadioBus) -> (r: usize)
        ensures
            r == if bus@.queues.contains_key(self.number()) {
                bus@.queues[self.number()].len()
            } else {
                0
            },
    {
        match bus.queues.get(&self.node_num) {
            Some(q) => q.len(),
            None => 0,
        }
    }

    /// Sends a packet: every other radio of the bus receives it.
    pub fn send(&mut self, bus: &mut SimRadioBus, packet: &MeshPacket) -> (r: Result<
        (),
        RadioError,
    >)
        ensures
            r is Ok,
            final(bus)@ == sent(old(bus)@, old(self).number(), packet@),
            final(self).number() == old(self).number(),
            final(self).status() == (QueueStatus {
                mesh_packet_id: packet@.id,
                ..QueueStatus::unknown()
            }),
    {
        bus.deliver(self.node_num, packet);
        self.last_status = QueueStatus { res: 0, free: 0, maxlen: 0, mesh_packet_id: packet.id };
        Ok(())
    }

    /// Takes the packet that was received first, if there is one.
    pub fn try_recv(&mut self, bus: &mut SimRadioBus) -> (r: Result<
        Option<ReceivedPacket>,
        RadioError,
    >)
        ensures
            *final(self) == *old(self),
            final(bus)@ == fetched(old(bus)@, old(self).number()),
            r is Ok,
            r->Ok_0 is Some <==> old(bus)@.queues.contains_key(old(self).number()) && old(
                bus,
            )@.queues[old(self).number()].len() > 0,
            r->Ok_0 matches Some(p) ==> p@ == old(bus)@.queues[old(self).number()][0],
    {
        Ok(bus.fetch(self.node_num))
    }

    /// The state of the transmit queue.
    pub fn queue_status(&self) -> (r: QueueStatus)
        ensures
            r == self.status(),
    {
        self.last_status
    }
}

/// A radio that sends does not hear itself, and every other radio on the bus hears
/// the packet after all that it was going to hear.
pub proof fn lemma_sent(bus: BusView, sender: NodeNum, packet: MeshPacketView, n: NodeNum)
    requires
        bus.queues.contains_key(n),
    ensures
        sent(bus, sender, packet).queues.dom() == bus.queues.dom(),
        n == sender ==> sent(bus, sender, packet).queues[n] == bus.queues[n],
        n != sender ==> sent(bus, sender, packet).queues[n] == bus.queues[n].push(
            heard(packet, next_time(bus.rx_time)),
        ),
{
    assert(sent(bus, sender, packet).queues.dom() =~= bus.queues.dom());
}

/// A radio that is not on the bus receives nothing, whatever is sent.
pub proof fn lemma_detached(bus: BusView, sender: NodeNum, packet: MeshPacketView, n: NodeNum)
    ensures
        !sent(
            BusView { queues: bus.queues.remove(n), rx_time: bus.rx_time },
            sender,
            packet,
        ).queues.contains_key(n),
{
}

/// Fetching from one queue leaves every other queue as it is.
pub proof fn lemma_fetched(bus: BusView, n: NodeNum, other: NodeNum)
    requires
        n != other,
    ensures
        fetched(bus, n).queues.dom() == bus.queues.dom(),
        fetched(bus, n).queues[other] == bus.queues[other],
{
    assert(fetched(bus, n).queues.dom() =~= bus.queues.dom());
}

/// What a radio receives is the packet as it was sent, measured at -60 dBm and 10 dB, and
/// stamped with the number of packets that were sent on the bus, this one included.
pub proof fn lemma_received_as_sent(
    bus: BusView,
    sender: NodeNum,
    packet: MeshPacketView,
    n: NodeNum,
)
    requires
        bus.queues.contains_key(n),
        n != sender,
    ensures
        ({
            let q = sent(bus, sender, packet).queues[n];
            &&& q.len() == bus.queues[n].len() + 1
            &&& q.drop_last() == bus.queues[n]
            &&& q.last().packet == packet
            &&& q.last().meta.rssi == -60
            &&& q.last().meta.snr == 0x4120_0000
            &&& q.last().meta.rx_time == sent(bus, sender, packet).rx_time
        }),
        bus.rx_time < u64::MAX ==> sent(bus, sender, packet).rx_time == bus.rx_time + 1,
        bus.rx_time == u64::MAX ==> sent(bus, sender, packet).rx_time == u64::MAX,
{
    lemma_sent(bus, sender, packet, n);
    assert(sent(bus, sender, packet).queues[n].drop_last() =~= bus.queues[n]);
}

/// A radio fetches what waits for it in the order in which it was sent: the first leaves the
/// queue, the rest stay in order, and the count of packets stays. With nothing waiting, or
/// off the bus, nothing changes.
pub proof fn lemma_fetched_in_order(bus: BusView, n: NodeNum)
    ensures
        fetched(bus, n).rx_time == bus.rx_time,
        bus.queues.contains_key(n) && bus.queues[n].len() > 0 ==> fetched(bus, n).queues[n]
            == bus.queues[n].drop_first() && fetched(bus, n).queues.contains_key(n),
        !bus.queues.contains_key(n) || bus.queues[n].len() == 0 ==> fetched(bus, n) == bus,
{
    if bus.queues.contains_key(n) && bus.queues[n].len() > 0 {
        assert(bus.queues[n].skip(1) =~= bus.queues[n].drop_first());
    }
}

/// A radio that waits for nothing fetches what another one sends next, and then waits for
/// nothing again; the one that sent fetches nothing of it.
pub proof fn lemma_sent_then_fetched(
    bus: BusView,
    sender: NodeNum,
    packet: MeshPacketView,
    n: NodeNum,
)
    requires
        bus.queues.contains_key(n),
        bus.queues[n].len() == 0,
        n != sender,
    ensures
        sent(bus, sender, packet).queues[n].len() == 1,
        sent(bus, sender, packet).queues[n][0].packet == packet,
        fetched(sent(bus, sender, packet), n).queues[n].len() == 0,
        sent(bus, n, packet).queues[n].len() == 0,
{
    lemma_received_as_sent(bus, sender, packet, n);
    lemma_sent(bus, n, packet, n);
    lemma_fetched_in_order(sent(bus, sender, packet), n);
}

} // verus!
