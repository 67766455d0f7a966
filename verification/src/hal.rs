//! What a platform offers a node: a clock, random bytes and a radio.

use crate::mesh::NodeNum;
use crate::proto::packet::{MeshPacket, MeshPacketView};
use crate::text;
use crate::wire;
use vstd::prelude::*;
use vstd::string::StringExecFns;

verus! {

/// The number of a packet. Zero stands for no number.
pub type PacketId = u32;

/// A clock that counts milliseconds from some start, usually the boot.
///
/// Later readings are never less than earlier ones.
pub trait Clock {
    /// Whether the clock may read `ms` now, as far as it is known.
    open spec fn may_read(&self, ms: u64) -> bool {
        true
    }

    /// The milliseconds since the clock's start.
    fn millis(&self) -> (r: u64)
        ensures
            self.may_read(r),
    ;
}

/// A source of random bytes.
pub trait Rng {
    /// What decides the bytes that the source gives next, as far as it is known.
    open spec fn state(&self) -> Seq<int> {
        Seq::empty()
    }

    /// Whether giving out `bytes` may bring the source into the state `after`.
    open spec fn gives(&self, after: Seq<int>, bytes: Seq<u8>) -> bool {
        true
    }

    /// Fills `dest` with random bytes.
    fn fill(&mut self, dest: &mut [u8])
        ensures
            final(dest)@.len() == old(dest)@.len(),
            (*old(self)).gives((*final(self)).state(), final(dest)@),
    ;

    /// A random number: four bytes of the source, the lowest first.
    fn next_u32(&mut self) -> (r: u32)
        ensures
            exists|b: Seq<u8>|
                b.len() == 4 && #[trigger] (*old(self)).gives((*final(self)).state(), b) && r
                    == wire::from_le32(b),
    {
        let mut b: [u8; 4] = [0u8; 4];
        self.fill(&mut b);
        assert(b@.take(4) =~= b@);
        wire::u32_from_le(&b)
    }

    /// A random number: eight bytes of the source, the lowest first.
    fn next_u64(&mut self) -> (r: u64)
        ensures
            exists|b: Seq<u8>|
                b.len() == 8 && #[trigger] (*old(self)).gives((*final(self)).state(), b) && r
                    == wire::from_le64(b),
    {
        let mut b: [u8; 8] = [0u8; 8];
        self.fill(&mut b);
        assert(b@.take(8) =~= b@);
        wire::u64_from_le(&b)
    }
}

impl<T: Clock + ?Sized> Clock for &T {
    open spec fn may_read(&self, ms: u64) -> bool {
        (**self).may_read(ms)
    }

    fn millis(&self) -> (r: u64) {
        (**self).millis()
    }
}

impl<T: Clock + ?Sized> Clock for Box<T> {
    open spec fn may_read(&self, ms: u64) -> bool {
        (**self).may_read(ms)
    }

    fn millis(&self) -> (r: u64) {
        (**self).millis()
    }
}

impl<T: Rng + ?Sized> Rng for Box<T> {
    open spec fn state(&self) -> Seq<int> {
        (**self).state()
    }

    open spec fn gives(&self, after: Seq<int>, bytes: Seq<u8>) -> bool {
        (**self).gives(after, bytes)
    }

    fn fill(&mut self, dest: &mut [u8]) {
        (**self).fill(dest)
    }
}

impl<T: Rng + ?Sized> Rng for &mut T {
    open spec fn state(&self) -> Seq<int> {
        (**self).state()
    }

    open spec fn gives(&self, after: Seq<int>, bytes: Seq<u8>) -> bool {
        (**self).gives(after, bytes)
    }

    fn fill(&mut self, dest: &mut [u8]) {
        (**self).fill(dest)
    }
}

/// What a radio measured while it received a packet.
#[derive(Debug, Clone, Copy, PartialEq, Eq, Structural)]
pub struct RxMeta {
    /// Received signal strength in dBm. Zero stands for unknown.
    pub rssi: i32,
    /// The bits of the signal-to-noise ratio in dB, an IEEE single.
    pub snr: u32,
    /// Clock reading at reception in milliseconds. Zero stands for unknown.
    pub rx_time: u64,
}

impl Default for RxMeta {
    fn default() -> (r: Self)
        ensures
            r == (RxMeta { rssi: 0, snr: 0, rx_time: 0 }),
    {
        RxMeta { rssi: 0, snr: 0, rx_time: 0 }
    }
}

/// The state of a transmit queue.
#[derive(Debug, Clone, Copy, PartialEq, Eq, Structural)]
pub struct QueueStatus {
    /// Result code of the last transmission. Zero stands for success.
    pub res: i32,
    /// Slots that are free.
    pub free: u32,
    /// Slots in all.
    pub maxlen: u32,
    /// The packet that was queued last, zero if there was none.
    pub mesh_packet_id: u32,
}

impl QueueStatus {
    /// The state of a queue of which nothing is known.
    pub open spec fn unknown() -> QueueStatus {
        QueueStatus { res: 0, free: 0, maxlen: 0, mesh_packet_id: 0 }
    }
}

impl Default for QueueStatus {
    fn default() -> (r: Self)
        ensures
            r == QueueStatus::unknown(),
    {
        QueueStatus { res: 0, free: 0, maxlen: 0, mesh_packet_id: 0 }
    }
}

/// Why a radio refused an operation.
#[derive(Debug, Clone, Copy, PartialEq, Eq, Structural)]
pub enum RadioError {
    /// The transmit queue is full.
    TxQueueFull,
    /// The packet does not fit in one frame.
    PacketTooLarge,
    /// The radio is asleep or did not start.
    Disabled,
    /// The hardware or its driver failed.
    HardwareFailure {
        /// The driver's own category.
        kind: u16,
    },
}

impl RadioError {
    /// The error in words.
    pub open spec fn text(self) -> Seq<char> {
        match self {
            RadioError::TxQueueFull => "TX queue is full"@,
            RadioError::PacketTooLarge => "packet too large for PHY"@,
            RadioError::Disabled => "radio is disabled"@,
            RadioError::HardwareFailure { kind } => "radio hardware failure (kind="@
                + text::decimal(kind as nat) + ")"@,
        }
    }

    /// The error in words.
    pub fn describe(&self) -> (r: String)
        ensures
            r@ == self.text(),
    {
        match self {
            RadioError::TxQueueFull => String::from_str("TX queue is full"),
            RadioError::PacketTooLarge => String::from_str("packet too large for PHY"),
            RadioError::Disabled => String::from_str("radio is disabled"),
            RadioError::HardwareFailure { kind } => text::number_between(
                "radio hardware failure (kind=",
                *kind as u64,
                ")",
            ),
        }
    }
}

/// A packet as a radio received it.
#[derive(Debug, PartialEq)]
pub struct ReceivedPacketOf<P> {
    /// The packet, its payload still as it was on the air.
    pub packet: P,
    /// What the radio measured.
    pub meta: RxMeta,
}

/// A packet as a radio received it.
pub type ReceivedPacket = ReceivedPacketOf<MeshPacket>;

/// The model of a packet as a radio received it.
pub type ReceivedPacketView = ReceivedPacketOf<MeshPacketView>;

impl View for ReceivedPacketOf<MeshPacket> {
    type V = ReceivedPacketView;

    open spec fn view(&self) -> ReceivedPacketView {
        ReceivedPacketOf { packet: self.packet@, meta: self.meta }
    }
}

impl Clone for ReceivedPacketOf<MeshPacket> {
    fn clone(&self) -> (r: Self)
        ensures
            r@ == self@,
    {
        ReceivedPacketOf { packet: self.packet.clone(), meta: self.meta }
    }
}

/// A radio. Received packets are fetched one by one.
pub trait Radio {
    /// Queues an encrypted packet for transmission, without waiting.
    fn send(&mut self, packet: &MeshPacket) -> (r: Result<(), RadioError>);

    /// Takes the packet that was received first, if there is one.
    fn try_recv(&mut self) -> (r: Result<Option<ReceivedPacket>, RadioError>);

    /// The state of the transmit queue.
    fn queue_status(&self) -> (r: QueueStatus)
        default_ensures
            r == QueueStatus::unknown(),
    {
        QueueStatus::default()
    }

    /// Takes a packet back that has not been transmitted yet, and tells whether
    /// it could.
    fn cancel(&mut self, from: NodeNum, id: PacketId) -> (r: bool)
        default_ensures
            !r,
            &*final(self) == &*old(self),
    {
        false
    }

    /// Whether a packet still waits for transmission.
    fn find_in_tx_queue(&self, from: NodeNum, id: PacketId) -> (r: bool)
        default_ensures
            !r,
    {
        false
    }

    /// Whether the radio has nothing left to do.
    fn can_sleep(&self) -> (r: bool)
        default_ensures
            r,
    {
        true
    }
}

/// Whether drawing the number `word` may take a source from `before` to `after`.
pub open spec fn drawn<R: Rng>(before: R, after: R, word: u32) -> bool {
    exists|b: Seq<u8>| b.len() == 4 && #[trigger] before.gives(after.state(), b) && word
        == wire::from_le32(b)
}

/// Whether `n` numbers in a row, all zero, may take a source from `before` to
/// `after`.
pub open spec fn zeros_drawn<R: Rng>(before: R, after: R, n: nat) -> bool
    decreases n,
{
    if n == 0 {
        before == after
    } else {
        exists|mid: R| zeros_drawn(before, mid, (n - 1) as nat) && #[trigger] drawn(mid, after, 0)
    }
}

proof fn lemma_zero_drawn<R: Rng>(before: R, mid: R, after: R, n: nat)
    requires
        zeros_drawn(before, mid, n),
        drawn(mid, after, 0),
    ensures
        zeros_drawn(before, after, n + 1),
{
    assert(zeros_drawn(before, mid, ((n + 1) - 1) as nat) && drawn(mid, after, 0));
}

/// How many zeros in a row the allocator of packet numbers puts up with: more than
/// any machine lives to draw.
pub const MAX_ZERO_DRAWS: u128 = u128::MAX;

/// Whether allocating the packet number `id` may take a source from `before` to
/// `after`: it is the first number that is not zero. A source that gives
/// [`MAX_ZERO_DRAWS`] zeros in a row is given up, and the number is 1.
pub open spec fn allocated<R: Rng>(before: R, after: R, id: PacketId) -> bool {
    ||| exists|mid: R, n: nat|
        #![trigger zeros_drawn(before, mid, n)]
        n < MAX_ZERO_DRAWS && zeros_drawn(before, mid, n) && drawn(mid, after, id) && id != 0
    ||| zeros_drawn(before, after, MAX_ZERO_DRAWS as nat) && id == 1
}

/// A stream of packet numbers, none of them zero.
#[derive(Debug)]
pub struct PacketIdAllocator<R: Rng> {
    rng: R,
}

impl<R: Rng> PacketIdAllocator<R> {
    /// The source that the numbers come from.
    pub closed spec fn source(&self) -> R {
        self.rng
    }

    /// An allocator that draws from `rng`.
    pub fn new(rng: R) -> (r: Self)
        ensures
            r.source() == rng,
    {
        PacketIdAllocator { rng }
    }

    /// The next packet number.
    pub fn next_id(&mut self) -> (r: PacketId)
        ensures
            r != 0,
            allocated(old(self).source(), final(self).source(), r),
    {
        let ghost before = self.rng;
        let mut tries: u128 = 0;
        while tries < MAX_ZERO_DRAWS
            invariant
                zeros_drawn(before, self.rng, tries as nat),
                before == old(self).rng,
            decreases MAX_ZERO_DRAWS - tries,
        {
            let ghost mid = self.rng;
            let id: u32 = self.rng.next_u32();
            assert(drawn(mid, self.rng, id));
            if id != 0 {
                return id;
            }
            proof {
                lemma_zero_drawn(before, mid, self.rng, tries as nat);
            }
            tries = tries + 1;
        }
        1
    }

    /// Gives the source back.
    pub fn into_inner(self) -> (r: R)
        ensures
            r == self.source(),
    {
        self.rng
    }
}

/// A packet number is never zero. It is the number that was drawn if that is not zero, and
/// zeros that were drawn before it are passed over, one by one.
pub proof fn lemma_allocated<R: Rng>(before: R, after: R, id: PacketId)
    requires
        allocated(before, after, id),
    ensures
        id != 0,
        drawn(before, after, id) || exists|mid: R| #[trigger] drawn(before, mid, 0),
{
    if !zeros_drawn(before, after, MAX_ZERO_DRAWS as nat) || id != 1 {
        let (mid, n) = choose|mid: R, n: nat|
            #![trigger zeros_drawn(before, mid, n)]
            n < MAX_ZERO_DRAWS && zeros_drawn(before, mid, n) && drawn(mid, after, id) && id != 0;
        lemma_zeros_start(before, mid, n);
    } else {
        lemma_zeros_start(before, after, MAX_ZERO_DRAWS as nat);
    }
}

proof fn lemma_zeros_start<R: Rng>(before: R, after: R, n: nat)
    requires
        zeros_drawn(before, after, n),
    ensures
        n == 0 ==> before == after,
        n > 0 ==> exists|mid: R| #[trigger] drawn(before, mid, 0),
    decreases n,
{
    if n > 0 {
        let mid = choose|mid: R|
            zeros_drawn(before, mid, (n - 1) as nat) && #[trigger] drawn(mid, after, 0);
        lemma_zeros_start(before, mid, (n - 1) as nat);
        if n == 1 {
            assert(drawn(before, after, 0));
        }
    }
}

/// A drawn number is made of four bytes of the source, the lowest first.
pub proof fn lemma_drawn<R: Rng>(before: R, after: R, word: u32)
    requires
        drawn(before, after, word),
    ensures
        exists|b: Seq<u8>|
            b.len() == 4 && #[trigger] before.gives(after.state(), b) && word == b[0] + 0x100 * b[1]
                + 0x1_0000 * b[2] + 0x100_0000 * b[3],
{
}

/// A queue of which nothing is known shows no slot, free or taken, no packet and no error.
pub proof fn lemma_nothing_known()
    ensures
        QueueStatus::unknown().free == 0,
        QueueStatus::unknown().maxlen == 0,
        QueueStatus::unknown().mesh_packet_id == 0,
        QueueStatus::unknown().res == 0,
{
}

} // verus!
