//! The simulated platform.

use meshtastic::hal::{Clock, Rng};
use meshtastic::mesh::NodeNum;
use meshtastic::proto::packet::MeshPacket;
use meshtastic::sim::{shown_millis, SimClock, SimRadioBus, SimRng};
use rand_chacha::ChaCha8Rng;
use rand_core::{RngCore, SeedableRng};

const ALICE: NodeNum = 0x0aaa_aaaa;
const BOB: NodeNum = 0x0bbb_bbbb;
const CHARLIE: NodeNum = 0x0ccc_cccc;

#[test]
fn manual_clock_advances() {
    let mut c = SimClock::manual(0);
    assert_eq!(c.millis(), 0);
    c.advance(250);
    assert_eq!(c.millis(), 250);
    c.advance(750);
    assert_eq!(c.millis(), 1000);
    c.set(42);
    assert_eq!(c.millis(), 42);
}

#[test]
fn rng_is_deterministic_across_instances() {
    let mut a = SimRng::seed_from_u64(0xdead_beef_cafe_babe);
    let mut b = SimRng::seed_from_u64(0xdead_beef_cafe_babe);
    for _ in 0..10 {
        assert_eq!(a.next_u32(), b.next_u32());
    }
}

#[test]
fn different_seeds_produce_different_streams() {
    let mut a = SimRng::seed_from_u64(1);
    let mut b = SimRng::seed_from_u64(2);
    let av: Vec<_> = (0..4).map(|_| a.next_u32()).collect();
    let bv: Vec<_> = (0..4).map(|_| b.next_u32()).collect();
    assert_ne!(av, bv);
}

fn dummy_packet(from: NodeNum, to: NodeNum, id: u32) -> MeshPacket {
    MeshPacket {
        from,
        to,
        id,
        ..Default::default()
    }
}

#[test]
fn bus_delivers_broadcast_to_all_peers() {
    let mut bus = SimRadioBus::new();
    let mut a = bus.attach(ALICE);
    let mut b = bus.attach(BOB);
    let mut c = bus.attach(CHARLIE);

    a.send(&mut bus, &dummy_packet(ALICE, u32::MAX, 1)).unwrap();

    assert_eq!(a.rx_queue_len(&bus), 0);
    assert_eq!(b.rx_queue_len(&bus), 1);
    assert_eq!(c.rx_queue_len(&bus), 1);

    let rx = b.try_recv(&mut bus).unwrap().unwrap();
    assert_eq!(rx.packet.id, 1);
    assert_eq!(rx.packet.from, ALICE);
    assert!(rx.meta.rx_time > 0);

    let rx2 = c.try_recv(&mut bus).unwrap().unwrap();
    assert_eq!(rx2.packet.id, 1);
}

#[test]
fn bus_delivers_unicast_to_everyone_except_sender() {
    let mut bus = SimRadioBus::new();
    let mut a = bus.attach(ALICE);
    let b = bus.attach(BOB);
    let c = bus.attach(CHARLIE);

    a.send(&mut bus, &dummy_packet(ALICE, BOB, 2)).unwrap();

    assert_eq!(a.rx_queue_len(&bus), 0);
    assert_eq!(b.rx_queue_len(&bus), 1);
    assert_eq!(c.rx_queue_len(&bus), 1);
}

#[test]
fn try_recv_returns_none_when_empty() {
    let mut bus = SimRadioBus::new();
    let mut a = bus.attach(ALICE);
    assert!(a.try_recv(&mut bus).unwrap().is_none());
}

#[test]
fn detach_stops_delivery() {
    let mut bus = SimRadioBus::new();
    let mut a = bus.attach(ALICE);
    let mut b = bus.attach(BOB);
    bus.detach(BOB);

    a.send(&mut bus, &dummy_packet(ALICE, u32::MAX, 3)).unwrap();
    assert!(b.try_recv(&mut bus).unwrap().is_none());
}

#[test]
fn queue_status_tracks_last_send() {
    let mut bus = SimRadioBus::new();
    let mut a = bus.attach(ALICE);
    assert_eq!(a.queue_status().mesh_packet_id, 0);
    a.send(&mut bus, &dummy_packet(ALICE, BOB, 0xcafe)).unwrap();
    assert_eq!(a.queue_status().mesh_packet_id, 0xcafe);
}

#[test]
fn attached_count_tracks_lifecycle() {
    let mut bus = SimRadioBus::new();
    assert_eq!(bus.attached_count(), 0);
    let _a = bus.attach(ALICE);
    let _b = bus.attach(BOB);
    assert_eq!(bus.attached_count(), 2);
    bus.detach(ALICE);
    assert_eq!(bus.attached_count(), 1);
}

#[test]
fn rng_is_chacha8() {
    let mut ours = SimRng::seed_from_u64(0x0123_4567_89ab_cdef);
    let mut theirs = ChaCha8Rng::seed_from_u64(0x0123_4567_89ab_cdef);
    for n in [1usize, 4, 7, 8, 63, 64, 256, 300, 3] {
        let mut a = vec![0u8; n];
        let mut b = vec![0u8; n];
        ours.fill(&mut a);
        theirs.fill_bytes(&mut b);
        assert_eq!(a, b);
        assert_eq!(Rng::next_u32(&mut ours), RngCore::next_u32(&mut theirs));
        assert_eq!(Rng::next_u64(&mut ours), RngCore::next_u64(&mut theirs));
    }
}

#[test]
fn rng_numbers_are_the_bytes_of_the_stream() {
    let mut a = SimRng::seed_from_u64(5);
    let mut b = a.clone();
    let mut bytes = [0u8; 12];
    a.fill(&mut bytes);
    assert_eq!(b.next_u32().to_le_bytes(), bytes[..4]);
    assert_eq!(b.next_u64().to_le_bytes(), bytes[4..]);
}

#[test]
fn clock_limits() {
    assert_eq!(shown_millis(5), 5);
    assert_eq!(shown_millis(u128::from(u64::MAX)), u64::MAX);
    assert_eq!(shown_millis(u128::from(u64::MAX) + 1), u64::MAX);
    let mut c = SimClock::manual(u64::MAX);
    c.advance(2);
    assert_eq!(c.millis(), 1);
    let mut c = SimClock::from_now();
    c.set(u64::MAX);
    c.advance(u64::MAX - 1);
    assert!(c.millis() < 1_000_000);
}

#[test]
fn packets_are_received_in_order() {
    let mut bus = SimRadioBus::default();
    let mut a = bus.attach(ALICE);
    let mut b = bus.attach(BOB);
    for id in 1..=3 {
        a.send(&mut bus, &dummy_packet(ALICE, BOB, id)).unwrap();
    }
    assert_eq!(a.node_num(), ALICE);
    for id in 1..=3 {
        let rx = b.try_recv(&mut bus).unwrap().unwrap();
        assert_eq!(rx.packet.id, id);
        assert_eq!(rx.meta.rx_time, u64::from(id));
        assert_eq!(rx.meta.rssi, -60);
        assert_eq!(f32::from_bits(rx.meta.snr), 10.0);
    }
    assert!(b.try_recv(&mut bus).unwrap().is_none());
}

#[test]
fn attaching_again_drops_what_waits() {
    let mut bus = SimRadioBus::new();
    let mut a = bus.attach(ALICE);
    let b = bus.attach(BOB);
    a.send(&mut bus, &dummy_packet(ALICE, BOB, 1)).unwrap();
    assert_eq!(b.rx_queue_len(&bus), 1);
    let b = bus.attach(BOB);
    assert_eq!(b.rx_queue_len(&bus), 0);
    assert_eq!(bus.attached_count(), 2);
}
