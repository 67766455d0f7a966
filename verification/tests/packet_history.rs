//! The record of packets seen.

use meshtastic::mesh::NodeNum;
use meshtastic::packet_history::{PacketHistory, MIN_CAPACITY};
use meshtastic::proto::packet::{Data, MeshPacket, PayloadVariant};

const OUR_NUM: NodeNum = 0x1234_5678;
const OUR_RELAY: u8 = 0x78;

fn pkt(from: NodeNum, id: u32, hop_limit: u32) -> MeshPacket {
    MeshPacket {
        from,
        id,
        hop_limit,
        hop_start: hop_limit,
        payload_variant: Some(PayloadVariant::Decoded(Data::default())),
        ..Default::default()
    }
}

#[test]
fn capacity_is_clamped_to_min() {
    let h = PacketHistory::with_capacity(0);
    assert_eq!(h.capacity(), MIN_CAPACITY);
    assert!(h.is_empty());
    assert_eq!(h.len(), 0);
}

#[test]
fn id_zero_is_never_seen() {
    let mut h = PacketHistory::with_capacity(8);
    let p = pkt(1, 0, 3);
    let info = h.was_seen_recently(&p, 1000, true, OUR_NUM, OUR_RELAY);
    assert!(!info.seen_recently);
    assert!(h.is_empty());
}

#[test]
fn first_sight_then_dedup() {
    let mut h = PacketHistory::with_capacity(8);
    let p = pkt(42, 0xdead, 3);

    let first = h.was_seen_recently(&p, 1000, true, OUR_NUM, OUR_RELAY);
    assert!(!first.seen_recently);
    assert_eq!(h.len(), 1);

    let second = h.was_seen_recently(&p, 2000, true, OUR_NUM, OUR_RELAY);
    assert!(second.seen_recently);
    assert!(!second.was_upgraded);
    assert_eq!(h.len(), 1, "same (sender,id) must not double-insert");
}

#[test]
fn fresh_packet_without_update_is_not_inserted() {
    let mut h = PacketHistory::with_capacity(8);
    let p = pkt(42, 0xbeef, 3);
    let info = h.was_seen_recently(&p, 1000, false, OUR_NUM, OUR_RELAY);
    assert!(!info.seen_recently);
    assert!(h.is_empty());
}

#[test]
fn higher_hop_limit_flags_as_upgraded() {
    let mut h = PacketHistory::with_capacity(8);
    let low = pkt(42, 0xaa, 1);
    h.was_seen_recently(&low, 100, true, OUR_NUM, OUR_RELAY);

    let high = pkt(42, 0xaa, 5);
    let info = h.was_seen_recently(&high, 200, true, OUR_NUM, OUR_RELAY);
    assert!(info.seen_recently);
    assert!(info.was_upgraded);
}

#[test]
fn lower_hop_limit_is_not_upgraded_and_preserves_highest() {
    let mut h = PacketHistory::with_capacity(8);
    h.was_seen_recently(&pkt(42, 0xaa, 5), 100, true, OUR_NUM, OUR_RELAY);
    let later = h.was_seen_recently(&pkt(42, 0xaa, 3), 200, true, OUR_NUM, OUR_RELAY);
    assert!(later.seen_recently);
    assert!(!later.was_upgraded);
    let rec = h.find(42, 0xaa).expect("must find record");
    assert_eq!(rec.highest_hop_limit(), 5);
}

#[test]
fn find_rejects_zero_keys() {
    let h = PacketHistory::with_capacity(4);
    assert!(h.find(0, 1).is_none());
    assert!(h.find(1, 0).is_none());
}

#[test]
fn evicts_oldest_when_full() {
    let mut h = PacketHistory::with_capacity(4);
    for i in 1..=4u32 {
        h.was_seen_recently(&pkt(100, i, 3), u64::from(i) * 1000, true, OUR_NUM, OUR_RELAY);
    }
    assert_eq!(h.len(), 4);
    h.was_seen_recently(&pkt(100, 5, 3), 5000, true, OUR_NUM, OUR_RELAY);
    assert_eq!(h.len(), 4);
    assert!(h.find(100, 1).is_none());
    assert!(h.find(100, 5).is_some());
}

#[test]
fn add_and_remove_relayer() {
    let mut h = PacketHistory::with_capacity(4);
    h.was_seen_recently(&pkt(7, 0x11, 3), 100, true, OUR_NUM, OUR_RELAY);
    h.add_relayer(7, 0x11, 0xaa);
    h.add_relayer(7, 0x11, 0xbb);
    h.add_relayer(7, 0x11, 0xaa);
    let r = h.find(7, 0x11).unwrap();
    let relayers: Vec<u8> = r.relayers();
    assert_eq!(relayers, vec![0xaa, 0xbb]);

    h.remove_relayer(7, 0x11, 0xaa);
    let r = h.find(7, 0x11).unwrap();
    let relayers: Vec<u8> = r.relayers();
    assert_eq!(relayers, vec![0xbb]);
}

#[test]
fn we_were_next_hop_is_reported() {
    let mut h = PacketHistory::with_capacity(4);
    let p = MeshPacket {
        from: 7,
        id: 0x22,
        hop_limit: 3,
        hop_start: 3,
        next_hop: u32::from(OUR_RELAY),
        payload_variant: Some(PayloadVariant::Decoded(Data::default())),
        ..Default::default()
    };
    h.was_seen_recently(&p, 100, true, OUR_NUM, OUR_RELAY);
    let info = h.was_seen_recently(&p, 200, false, OUR_NUM, OUR_RELAY);
    assert!(info.we_were_next_hop);
}

#[test]
fn legacy_from_zero_resolves_to_our_num() {
    let mut h = PacketHistory::with_capacity(4);
    let p = pkt(0, 0x33, 3);
    h.was_seen_recently(&p, 100, true, OUR_NUM, OUR_RELAY);
    assert!(h.find(OUR_NUM, 0x33).is_some());
    assert!(h.find(0, 0x33).is_none());
}

#[test]
fn now_zero_is_promoted_to_one() {
    let mut h = PacketHistory::with_capacity(4);
    h.was_seen_recently(&pkt(1, 1, 1), 0, true, OUR_NUM, OUR_RELAY);
    let rec = h.find(1, 1).expect("stored");
    assert_eq!(rec.rx_time_ms(), 1);
}

#[test]
fn highest_hop_limit_is_that_of_all_copies() {
    let mut h = PacketHistory::with_capacity(8);
    let mut highest = 0;
    for (i, hop_limit) in [3u32, 1, 5, 12, 2, 9].iter().enumerate() {
        let p = MeshPacket { from: 9, id: 4, hop_limit: *hop_limit, ..Default::default() };
        h.was_seen_recently(&p, 10 + i as u64, true, 1, 1);
        let other = MeshPacket { from: 10, id: i as u32 + 1, hop_limit: 7, ..Default::default() };
        h.was_seen_recently(&other, 10 + i as u64, true, 1, 1);
        highest = highest.max(*hop_limit as u8 & 7);
        assert_eq!(h.find(9, 4).unwrap().highest_hop_limit(), highest);
    }
}

#[test]
fn relayers_are_listed_once() {
    let mut h = PacketHistory::with_capacity(8);
    let p = MeshPacket { from: 9, id: 4, relay_node: 3, ..Default::default() };
    h.was_seen_recently(&p, 1, true, 1, 3);
    for relayer in [5, 3, 5, 0, 6, 7, 8, 9, 10] {
        h.add_relayer(9, 4, relayer);
    }
    h.was_seen_recently(&p, 2, true, 1, 3);
    h.remove_relayer(9, 4, 6);
    h.add_relayer(9, 4, 7);
    let record = h.find(9, 4).unwrap();
    let mut listed = record.relayers();
    assert!(listed.len() <= 6 && !listed.contains(&0));
    for b in 0..=255u8 {
        assert_eq!(record.was_relayer(b), listed.contains(&b));
    }
    listed.sort();
    let n = listed.len();
    listed.dedup();
    assert_eq!(listed.len(), n);
}
