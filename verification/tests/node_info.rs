//! The node info module.

use meshtastic::mesh::NodeNum;
use meshtastic::message::{decode, Message};
use meshtastic::module::{MeshModule, ModuleContext, ProcessMessage, RxSource};
use meshtastic::node_info::{format_user_id, NodeInfoModule};
use meshtastic::proto::node::User;
use meshtastic::proto::packet::{Data, MeshPacket, PayloadVariant};
use meshtastic::proto::ports::{PORT_NODE_INFO, PORT_TEXT_MESSAGE};

const OURS: NodeNum = 0x1000_0000;
const PEER: NodeNum = 0x2000_0000;

fn owner() -> User {
    User {
        id: "!old_id".into(),
        long_name: "Alice".into(),
        short_name: "Al".into(),
        hw_model: 50,
        ..Default::default()
    }
}

fn mk_peer_user(name: &str) -> User {
    User {
        id: "!bogus".into(),
        long_name: name.into(),
        short_name: "BB".into(),
        hw_model: 11,
        ..Default::default()
    }
}

fn nodeinfo_packet(
    from: NodeNum,
    to: NodeNum,
    id: u32,
    user: &User,
    want_response: bool,
) -> MeshPacket {
    let buf = user.encode_to_vec();
    MeshPacket {
        from,
        to,
        id,
        channel: 0,
        rx_time: 1_700_000_000,
        payload_variant: Some(PayloadVariant::Decoded(Data {
            portnum: PORT_NODE_INFO,
            payload: buf,
            want_response,
            ..Default::default()
        })),
        ..Default::default()
    }
}

fn ctx() -> ModuleContext<'static> {
    ModuleContext {
        our_node_num: OURS,
        src: RxSource::Radio,
        channel: None,
    }
}

#[test]
fn accepts_nodeinfo_portnum_only() {
    let m = NodeInfoModule::new(OURS, owner());
    assert!(m.want_packet(&nodeinfo_packet(PEER, OURS, 1, &mk_peer_user("Bob"), false)));
    let mut other = nodeinfo_packet(PEER, OURS, 1, &mk_peer_user("Bob"), false);
    if let Some(PayloadVariant::Decoded(d)) = other.payload_variant.as_mut() {
        d.portnum = PORT_TEXT_MESSAGE;
    }
    assert!(!m.want_packet(&other));
}

#[test]
fn is_promiscuous() {
    let m = NodeInfoModule::new(OURS, owner());
    assert!(m.is_promiscuous());
}

#[test]
fn self_originated_packets_produce_no_update() {
    let mut m = NodeInfoModule::new(OURS, owner());
    let p = nodeinfo_packet(OURS, PEER, 1, &mk_peer_user("Self"), false);
    m.handle_received(&p, &ctx());
    assert!(m.take_pending_updates().is_empty());
}

#[test]
fn update_is_recorded_and_user_id_normalised() {
    let mut m = NodeInfoModule::new(OURS, owner());
    let p = nodeinfo_packet(PEER, OURS, 1, &mk_peer_user("Bob"), false);
    m.handle_received(&p, &ctx());
    let updates = m.take_pending_updates();
    assert_eq!(updates.len(), 1);
    assert_eq!(updates[0].num, PEER);
    assert_eq!(updates[0].user.long_name, "Bob");
    assert_eq!(updates[0].user.id, "!20000000");
    assert_eq!(updates[0].channel, 0);
}

#[test]
fn license_mismatch_drops_update_and_stops_chain() {
    let mut m = NodeInfoModule::new(OURS, owner());
    let mut bob = mk_peer_user("Bob");
    bob.is_licensed = true;
    let p = nodeinfo_packet(PEER, OURS, 1, &bob, false);
    let decision = m.handle_received(&p, &ctx());
    assert!(matches!(decision, ProcessMessage::Stop));
    assert!(m.take_pending_updates().is_empty());
}

#[test]
fn alloc_reply_returns_encoded_owner_user() {
    let mut m = NodeInfoModule::new(OURS, owner());
    let p = nodeinfo_packet(PEER, OURS, 1, &mk_peer_user("Bob"), true);
    m.handle_received(&p, &ctx());
    let reply = m.alloc_reply(&p).expect("expected a reply");
    let data = match reply.payload_variant {
        Some(PayloadVariant::Decoded(d)) => d,
        _ => panic!("reply must be decoded"),
    };
    assert_eq!(data.portnum, PORT_NODE_INFO);
    let decoded = decode::<User>(&data.payload).unwrap();
    assert_eq!(decoded.long_name, "Alice");
    assert_eq!(decoded.id, "!10000000");
}

#[test]
fn reply_is_suppressed_within_window_for_same_requester() {
    let mut m = NodeInfoModule::new(OURS, owner());
    let p1 = nodeinfo_packet(PEER, OURS, 1, &mk_peer_user("Bob"), true);
    m.handle_received(&p1, &ctx());
    let _ = m.alloc_reply(&p1).unwrap();

    let mut p2 = nodeinfo_packet(PEER, OURS, 2, &mk_peer_user("Bob"), true);
    if let Some(PayloadVariant::Decoded(_)) = p2.payload_variant.as_ref() {
        p2.rx_time = 1_700_000_000 + 60;
    }
    m.handle_received(&p2, &ctx());
    assert!(m.alloc_reply(&p2).is_none(), "reply must be suppressed");
    assert!(m.last_reply_was_suppressed());
}

#[test]
fn reply_is_not_suppressed_after_window() {
    let mut m = NodeInfoModule::new(OURS, owner());
    m.set_suppress_secs(30);
    let p1 = nodeinfo_packet(PEER, OURS, 1, &mk_peer_user("Bob"), true);
    m.handle_received(&p1, &ctx());
    let _ = m.alloc_reply(&p1).unwrap();

    let mut p2 = nodeinfo_packet(PEER, OURS, 2, &mk_peer_user("Bob"), true);
    p2.rx_time = 1_700_000_000 + 60;
    m.handle_received(&p2, &ctx());
    assert!(m.alloc_reply(&p2).is_some(), "reply must be sent");
    assert!(!m.last_reply_was_suppressed());
}

#[test]
fn suppression_is_per_requester() {
    let mut m = NodeInfoModule::new(OURS, owner());
    let p1 = nodeinfo_packet(PEER, OURS, 1, &mk_peer_user("Bob"), true);
    m.handle_received(&p1, &ctx());
    let _ = m.alloc_reply(&p1).unwrap();

    let other_peer = 0x3000_0000;
    let p2 = nodeinfo_packet(other_peer, OURS, 2, &mk_peer_user("Carol"), true);
    m.handle_received(&p2, &ctx());
    assert!(m.alloc_reply(&p2).is_some());
}

#[test]
fn licensed_owner_public_key_is_stripped_from_reply() {
    let mut owner_u = owner();
    owner_u.is_licensed = true;
    owner_u.public_key = vec![0xab; 32];
    let mut m = NodeInfoModule::new(OURS, owner_u);
    let mut bob = mk_peer_user("Bob");
    bob.is_licensed = true;
    let p = nodeinfo_packet(PEER, OURS, 1, &bob, true);
    m.handle_received(&p, &ctx());
    let reply = m.alloc_reply(&p).unwrap();
    let Some(PayloadVariant::Decoded(d)) = reply.payload_variant else {
        panic!()
    };
    let decoded = decode::<User>(&d.payload).unwrap();
    assert!(decoded.public_key.is_empty());
    assert!(decoded.is_licensed);
}

#[test]
fn last_seen_cache_is_bounded() {
    let mut m = NodeInfoModule::new(OURS, owner());
    m.set_last_seen_capacity(3);
    for i in 1..=5u32 {
        let mut p = nodeinfo_packet(0x1000 + i, OURS, i, &mk_peer_user("X"), true);
        p.rx_time = 1_700_000_000 + i;
        m.handle_received(&p, &ctx());
    }
    assert_eq!(m.last_node_info_seen.len(), 3);
    assert!(m.last_node_info_seen.contains_key(&0x1005));
    assert!(m.last_node_info_seen.contains_key(&0x1004));
    assert!(m.last_node_info_seen.contains_key(&0x1003));
}

#[test]
fn pending_updates_are_drained_by_take() {
    let mut m = NodeInfoModule::new(OURS, owner());
    let p = nodeinfo_packet(PEER, OURS, 1, &mk_peer_user("Bob"), false);
    m.handle_received(&p, &ctx());
    assert_eq!(m.take_pending_updates().len(), 1);
    assert!(m.take_pending_updates().is_empty());
}

#[test]
fn format_user_id_is_zero_padded_lowercase() {
    assert_eq!(format_user_id(0), "!00000000");
    assert_eq!(format_user_id(0xdead_beef), "!deadbeef");
    assert_eq!(format_user_id(0x1234_5678), "!12345678");
}

#[test]
fn owner_can_be_replaced() {
    let mut m = NodeInfoModule::new(OURS, owner());
    m.set_owner(User { long_name: "Eve".to_string(), ..owner() });
    assert_eq!(m.owner().long_name, "Eve");
    let p = nodeinfo_packet(PEER, OURS, 1, &mk_peer_user("Bob"), true);
    let reply = m.alloc_reply(&p).unwrap();
    let Some(PayloadVariant::Decoded(d)) = reply.payload_variant else { panic!() };
    assert_eq!(decode::<User>(&d.payload).unwrap().long_name, "Eve");
}

#[test]
fn payload_that_is_no_user_is_passed_on() {
    let mut m = NodeInfoModule::new(OURS, owner());
    let mut p = nodeinfo_packet(PEER, OURS, 1, &mk_peer_user("Bob"), false);
    if let Some(PayloadVariant::Decoded(d)) = p.payload_variant.as_mut() {
        d.payload = vec![0xff];
    }
    assert!(matches!(m.handle_received(&p, &ctx()), ProcessMessage::Continue));
    assert!(m.take_pending_updates().is_empty());
}
