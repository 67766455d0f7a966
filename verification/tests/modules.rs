//! Packets on their way through the modules.

use meshtastic::channels::Channels;
use meshtastic::message::{decode, Message};
use meshtastic::module::{ModuleDispatcher, RxSource};
use meshtastic::node_info::NodeInfoModule;
use meshtastic::nodedb::NodeDb;
use meshtastic::packet::{decrypt, encrypt};
use meshtastic::proto::node::User;
use meshtastic::proto::packet::{Data, MeshPacket, PayloadVariant};
use meshtastic::proto::ports::{PORT_NODE_INFO, PORT_TEXT_MESSAGE};
use meshtastic::text_message::TextMessageModule;
use std::sync::atomic::{AtomicBool, Ordering};
use std::sync::Arc;

const ALICE: u32 = 0x0aaa_aaaa;
const BOB: u32 = 0x0bbb_bbbb;

fn text_packet(from: u32, to: u32, id: u32, body: &str) -> MeshPacket {
    MeshPacket {
        from,
        to,
        id,
        hop_limit: 3,
        hop_start: 3,
        payload_variant: Some(PayloadVariant::Decoded(Data {
            portnum: PORT_TEXT_MESSAGE,
            payload: body.as_bytes().to_vec(),
            ..Default::default()
        })),
        ..Default::default()
    }
}

#[test]
fn alice_sends_text_bob_module_receives_it() {
    let channels = Channels::with_default_primary();
    let primary = channels.primary_index();

    let mut on_wire = text_packet(ALICE, BOB, 0x1234, "hi bob");
    encrypt(&channels, primary, &mut on_wire).unwrap();

    let mut dispatcher = ModuleDispatcher::new();
    let mut text_mod = TextMessageModule::new();
    let observed = Arc::new(AtomicBool::new(false));
    let obs = observed.clone();
    text_mod.add_observer(move |_p| {
        obs.store(true, Ordering::SeqCst);
    });
    dispatcher.register(text_mod);

    let idx = decrypt(&channels, &mut on_wire).unwrap();
    assert_eq!(idx, primary);
    let out = dispatcher.dispatch(&on_wire, RxSource::Radio, BOB, None);
    assert!(out.module_found);
    assert!(observed.load(Ordering::SeqCst));
}

#[test]
fn encrypted_packet_is_dropped_by_text_module() {
    let channels = Channels::with_default_primary();
    let primary = channels.primary_index();
    let mut on_wire = text_packet(ALICE, BOB, 0x1, "x");
    encrypt(&channels, primary, &mut on_wire).unwrap();

    let mut dispatcher = ModuleDispatcher::new();
    dispatcher.register(TextMessageModule::new());
    let out = dispatcher.dispatch(&on_wire, RxSource::Radio, BOB, None);
    assert!(!out.module_found, "text module should never see encrypted packets");
}

#[test]
fn want_response_triggers_no_reply_from_text_module() {
    let mut dispatcher = ModuleDispatcher::new();
    dispatcher.register(TextMessageModule::new());
    let mut p = text_packet(ALICE, BOB, 0x7, "ping");
    if let Some(PayloadVariant::Decoded(d)) = p.payload_variant.as_mut() {
        d.want_response = true;
    }
    let out = dispatcher.dispatch(&p, RxSource::Radio, BOB, None);
    assert!(out.module_found);
    assert!(out.reply.is_none(), "TextMessageModule does not produce replies");
}

#[test]
fn nodeinfo_round_trip_dispatches_and_replies() {

    let channels = Channels::with_default_primary();
    let primary = channels.primary_index();

    let mut nodedb = NodeDb::new(BOB);
    let bob_owner = User {
        long_name: "Bob".into(),
        short_name: "Bo".into(),
        ..Default::default()
    };
    let mut dispatcher = ModuleDispatcher::new();
    dispatcher.register(NodeInfoModule::new(BOB, bob_owner.clone()));

    let alice_user = User {
        long_name: "Alice".into(),
        short_name: "Al".into(),
        ..Default::default()
    };
    let req_payload = alice_user.encode_to_vec();
    let mut dm = MeshPacket {
        from: ALICE,
        to: BOB,
        id: 0x7002,
        hop_limit: 3,
        hop_start: 3,
        rx_time: 1_700_000_000,
        payload_variant: Some(PayloadVariant::Decoded(Data {
            portnum: PORT_NODE_INFO,
            payload: req_payload,
            want_response: true,
            ..Default::default()
        })),
        ..Default::default()
    };
    encrypt(&channels, primary, &mut dm).unwrap();
    decrypt(&channels, &mut dm).unwrap();

    nodedb.update_from(&dm);

    let out = dispatcher.dispatch(&dm, RxSource::Radio, BOB, None);
    assert!(out.module_found);
    let reply = out.reply.expect("nodeinfo reply expected");
    assert_eq!(reply.to, ALICE);
    assert_eq!(reply.channel, dm.channel, "reply uses request's channel");
    let Some(PayloadVariant::Decoded(d)) = reply.payload_variant else {
        panic!("reply payload must be decoded")
    };
    assert_eq!(d.portnum, PORT_NODE_INFO);
    assert_eq!(d.request_id, 0x7002, "request_id must be set by setReplyTo");
    let decoded = decode::<User>(&d.payload).unwrap();
    assert_eq!(decoded.long_name, "Bob");
    assert_eq!(decoded.id, "!0bbbbbbb");
}
