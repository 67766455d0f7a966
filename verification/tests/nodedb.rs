//! The table of known nodes.

use meshtastic::mesh::{NodeNum, NODENUM_BROADCAST};
use meshtastic::nodedb::{
    NodeDb, NodeDbError, BITFIELD_IS_KEY_MANUALLY_VERIFIED, DEFAULT_CAPACITY, NODE_DATABASE_VERSION,
};
use meshtastic::proto::node::{NodeDatabase, NodeInfoLite, UserLite};
use meshtastic::proto::packet::{Data, MeshPacket, PayloadVariant};

const OUR: NodeNum = 0x1111_1111;

fn decoded_pkt(from: NodeNum) -> MeshPacket {
    MeshPacket {
        from,
        to: NODENUM_BROADCAST,
        hop_start: 3,
        hop_limit: 2,
        rx_time: 1000,
        rx_snr: (5.5f32).to_bits(),
        via_mqtt: false,
        payload_variant: Some(PayloadVariant::Decoded(Data::default())),
        ..Default::default()
    }
}

fn node(num: NodeNum, last_heard: u32) -> NodeInfoLite {
    NodeInfoLite {
        num,
        last_heard,
        ..Default::default()
    }
}

#[test]
fn new_db_is_empty() {
    let db = NodeDb::new(OUR);
    assert!(db.is_empty());
    assert_eq!(db.len(), 0);
    assert_eq!(db.capacity(), DEFAULT_CAPACITY);
    assert!(!db.is_full());
}

#[test]
fn get_or_create_inserts_new_node() {
    let mut db = NodeDb::new(OUR);
    let n = db.get_or_create(0x42);
    assert_eq!(n.num, 0x42);
    assert_eq!(db.len(), 1);
    let _ = db.get_or_create(0x42);
    assert_eq!(db.len(), 1);
}

#[test]
fn update_from_skips_self() {
    let mut db = NodeDb::new(OUR);
    let p = decoded_pkt(OUR);
    assert!(db.update_from(&p).is_none());
    assert!(db.is_empty());
}

#[test]
fn update_from_skips_encrypted() {
    let mut db = NodeDb::new(OUR);
    let p = MeshPacket {
        from: 0x42,
        payload_variant: Some(PayloadVariant::Encrypted(Vec::new())),
        ..Default::default()
    };
    assert!(db.update_from(&p).is_none());
    assert!(db.is_empty());
}

#[test]
fn update_from_populates_fields() {
    let mut db = NodeDb::new(OUR);
    let mut p = decoded_pkt(0x42);
    p.via_mqtt = true;
    let num = db.update_from(&p).expect("should insert");
    assert_eq!(num, 0x42);
    let info = db.get(0x42).unwrap();
    assert_eq!(info.last_heard, 1000);
    assert!((f32::from_bits(info.snr) - 5.5).abs() < 1e-6);
    assert!(info.via_mqtt);
    assert_eq!(info.hops_away, Some(1));
}

#[test]
fn update_from_ignores_from_zero() {
    let mut db = NodeDb::new(OUR);
    let p = decoded_pkt(0);
    assert!(db.update_from(&p).is_none());
    assert!(db.is_empty());
}

#[test]
fn favorite_and_ignored_flags() {
    let mut db = NodeDb::new(OUR);
    db.insert(node(0x42, 10));
    assert!(!db.is_favorite(0x42));
    assert!(db.set_favorite(0x42, true));
    assert!(db.is_favorite(0x42));
    assert!(!db.set_favorite(0x42, true));
    assert!(db.set_favorite(0x42, false));

    assert!(!db.is_ignored(0x42));
    assert!(db.set_ignored(0x42, true));
    assert!(db.is_ignored(0x42));
}

#[test]
fn favorite_lookup_rejects_broadcast() {
    let db = NodeDb::new(OUR);
    assert!(!db.is_favorite(NODENUM_BROADCAST));
    assert!(!db.is_ignored(NODENUM_BROADCAST));
}

#[test]
fn is_from_or_to_favorited_broadcast_checks_from_only() {
    let mut db = NodeDb::new(OUR);
    db.insert(node(0x42, 10));
    db.set_favorite(0x42, true);
    let pkt = MeshPacket {
        from: 0x42,
        to: NODENUM_BROADCAST,
        ..Default::default()
    };
    assert!(db.is_from_or_to_favorited(&pkt));

    let pkt2 = MeshPacket {
        from: 0x99,
        to: NODENUM_BROADCAST,
        ..Default::default()
    };
    assert!(!db.is_from_or_to_favorited(&pkt2));
}

#[test]
fn is_from_or_to_favorited_dm_checks_both() {
    let mut db = NodeDb::new(OUR);
    db.insert(node(0x42, 10));
    db.insert(node(0x99, 20));
    db.set_favorite(0x99, true);
    let pkt = MeshPacket {
        from: 0x42,
        to: 0x99,
        ..Default::default()
    };
    assert!(db.is_from_or_to_favorited(&pkt));
}

#[test]
fn eviction_prefers_boring_nodes() {
    let mut db = NodeDb::with_capacity(OUR, 3);
    db.insert(node(OUR, 999_999));
    db.insert(node(0x10, 100));
    let mut has_key = node(0x20, 50);
    has_key.user = Some(UserLite {
        public_key: vec![1, 2, 3],
        ..Default::default()
    });
    db.insert(has_key);

    assert!(db.is_full());
    db.insert(node(0x30, 200));
    assert_eq!(db.len(), 3);
    assert!(db.get(0x10).is_none());
    assert!(db.get(0x20).is_some());
    assert!(db.get(0x30).is_some());
    assert!(db.get(OUR).is_some());
}

#[test]
fn eviction_never_evicts_self_favorites_or_verified() {
    let mut db = NodeDb::with_capacity(OUR, 3);
    db.insert(node(OUR, 0));
    let mut fav = node(0x10, 0);
    fav.is_favorite = true;
    db.insert(fav);
    let mut verified = node(0x20, 0);
    verified.bitfield = BITFIELD_IS_KEY_MANUALLY_VERIFIED;
    db.insert(verified);

    db.insert(node(0x30, 100));
    assert_eq!(db.len(), 4);
    assert!(db.get(OUR).is_some());
    assert!(db.get(0x10).is_some());
    assert!(db.get(0x20).is_some());
    assert!(db.get(0x30).is_some());
}

#[test]
fn eviction_falls_back_to_oldest_non_boring() {
    let mut db = NodeDb::with_capacity(OUR, 3);
    db.insert(node(OUR, 999));
    for (n, ts) in [(0x10u32, 500u32), (0x20, 100)] {
        let mut info = node(n, ts);
        info.user = Some(UserLite {
            public_key: vec![1, 2, 3],
            ..Default::default()
        });
        db.insert(info);
    }
    assert!(db.is_full());
    db.insert(node(0x30, 1000));
    assert!(db.get(0x20).is_none());
    assert!(db.get(0x10).is_some());
    assert!(db.get(0x30).is_some());
}

#[test]
fn proto_roundtrip_preserves_entries() {
    let mut db = NodeDb::with_capacity(OUR, 10);
    db.insert(node(OUR, 0));
    db.insert(node(0x10, 50));
    let mut fav = node(0x20, 100);
    fav.is_favorite = true;
    db.insert(fav);

    let proto = db.to_proto();
    assert_eq!(proto.version, NODE_DATABASE_VERSION);
    assert_eq!(proto.nodes.len(), 3);

    let restored = NodeDb::from_proto(OUR, 10, proto).unwrap();
    assert_eq!(restored.len(), 3);
    assert!(restored.get(OUR).is_some());
    assert!(restored.is_favorite(0x20));
    assert_eq!(restored.iter().first().unwrap().num, OUR);
}

#[test]
fn from_proto_rejects_overflow() {
    let proto = NodeDatabase {
        version: NODE_DATABASE_VERSION,
        nodes: (0..5).map(|i| node(i + 1, 0)).collect(),
    };
    let err = NodeDb::from_proto(OUR, 3, proto).unwrap_err();
    assert!(matches!(err, NodeDbError::TooManyNodes { got: 5, max: 3 }));
}

#[test]
fn from_proto_rejects_duplicate_num() {
    let proto = NodeDatabase {
        version: NODE_DATABASE_VERSION,
        nodes: vec![node(0x42, 1), node(0x42, 2)],
    };
    let err = NodeDb::from_proto(OUR, 10, proto).unwrap_err();
    assert_eq!(err, NodeDbError::DuplicateNode(0x42));
}

#[test]
fn remove_works() {
    let mut db = NodeDb::new(OUR);
    db.insert(node(0x42, 10));
    assert!(db.remove(0x42));
    assert!(!db.remove(0x42));
}
