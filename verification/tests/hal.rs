//! Clocks, random bytes and radios.

use meshtastic::hal::{
    Clock, PacketIdAllocator, QueueStatus, Radio, RadioError, ReceivedPacket, Rng, RxMeta,
};
use meshtastic::proto::packet::MeshPacket;

struct FixedRng {
    seq: Vec<u32>,
    idx: usize,
}
impl Rng for FixedRng {
    fn fill(&mut self, dest: &mut [u8]) {
        for chunk in dest.chunks_mut(4) {
            let v = self.seq[self.idx % self.seq.len()];
            self.idx += 1;
            let bytes = v.to_le_bytes();
            chunk.copy_from_slice(&bytes[..chunk.len()]);
        }
    }
}

#[test]
fn packet_id_allocator_skips_zero() {
    let rng = FixedRng {
        seq: vec![0, 0, 0, 0x1234_5678],
        idx: 0,
    };
    let mut alloc = PacketIdAllocator::new(rng);
    assert_eq!(alloc.next_id(), 0x1234_5678);
}

#[test]
fn packet_id_allocator_produces_distinct_ids_from_good_rng() {
    let rng = FixedRng {
        seq: vec![1, 2, 3, 4, 5],
        idx: 0,
    };
    let mut alloc = PacketIdAllocator::new(rng);
    let ids: Vec<_> = (0..5).map(|_| alloc.next_id()).collect();
    assert_eq!(ids, vec![1, 2, 3, 4, 5]);
}

#[test]
fn rng_next_helpers_match_fill() {
    struct R;
    impl Rng for R {
        fn fill(&mut self, dest: &mut [u8]) {
            for (i, b) in dest.iter_mut().enumerate() {
                *b = i as u8 + 1;
            }
        }
    }
    let mut r = R;
    assert_eq!(r.next_u32(), u32::from_le_bytes([1, 2, 3, 4]));
    assert_eq!(r.next_u64(), u64::from_le_bytes([1, 2, 3, 4, 5, 6, 7, 8]));
}

#[test]
fn clock_blanket_impl_refs_delegate() {
    struct C(u64);
    impl Clock for C {
        fn millis(&self) -> u64 {
            self.0
        }
    }
    let c = C(42);
    let r: &dyn Clock = &c;
    assert_eq!(r.millis(), 42);
}

#[test]
fn radio_error_display() {
    assert_eq!(RadioError::TxQueueFull.describe(), "TX queue is full");
    assert_eq!(RadioError::PacketTooLarge.describe(), "packet too large for PHY");
    assert_eq!(RadioError::Disabled.describe(), "radio is disabled");
    assert_eq!(
        RadioError::HardwareFailure { kind: 7 }.describe(),
        "radio hardware failure (kind=7)"
    );
}

struct Deaf;

impl Radio for Deaf {
    fn send(&mut self, _packet: &MeshPacket) -> Result<(), RadioError> {
        Err(RadioError::Disabled)
    }

    fn try_recv(&mut self) -> Result<Option<ReceivedPacket>, RadioError> {
        Ok(None)
    }
}

#[test]
fn radio_defaults() {
    let mut radio: Box<dyn Radio> = Box::new(Deaf);
    assert_eq!(radio.send(&MeshPacket::default()), Err(RadioError::Disabled));
    assert!(radio.try_recv().unwrap().is_none());
    assert_eq!(radio.queue_status(), QueueStatus::default());
    assert!(!radio.cancel(1, 2));
    assert!(!radio.find_in_tx_queue(1, 2));
    assert!(radio.can_sleep());
    assert_eq!(RxMeta::default(), RxMeta { rssi: 0, snr: 0, rx_time: 0 });
}

#[test]
fn sources_can_be_lent_and_boxed() {
    let mut rng = FixedRng { seq: vec![7, 8, 9], idx: 0 };
    {
        let mut lent = &mut rng;
        assert_eq!(Rng::next_u32(&mut lent), 7);
    }
    let mut boxed: Box<dyn Rng> = Box::new(rng);
    assert_eq!(boxed.next_u32(), 8);
    let mut ids = PacketIdAllocator::new(boxed);
    assert_eq!(ids.next_id(), 9);
    assert_eq!(ids.into_inner().next_u32(), 7);
}
