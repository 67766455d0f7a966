//! The text message module.

use meshtastic::module::{MeshModule, ModuleContext, ProcessMessage, RxSource};
use meshtastic::proto::packet::{Data, MeshPacket, PayloadVariant};
use meshtastic::proto::ports::{PORT_POSITION, PORT_TEXT_MESSAGE};
use meshtastic::text_message::TextMessageModule;
use std::sync::atomic::{AtomicUsize, Ordering};
use std::sync::Arc;

fn text(id: u32, body: &[u8]) -> MeshPacket {
    MeshPacket {
        from: 0x42,
        to: 0x1234,
        id,
        payload_variant: Some(PayloadVariant::Decoded(Data {
            portnum: PORT_TEXT_MESSAGE,
            payload: body.to_vec(),
            ..Default::default()
        })),
        ..Default::default()
    }
}

fn other(id: u32) -> MeshPacket {
    MeshPacket {
        id,
        payload_variant: Some(PayloadVariant::Decoded(Data {
            portnum: PORT_POSITION,
            ..Default::default()
        })),
        ..Default::default()
    }
}

fn ctx() -> ModuleContext<'static> {
    ModuleContext {
        our_node_num: 0x1234,
        src: RxSource::Radio,
        channel: None,
    }
}

#[test]
fn accepts_only_text_portnum() {
    let m = TextMessageModule::new();
    assert!(m.want_packet(&text(1, b"hi")));
    assert!(!m.want_packet(&other(1)));
}

#[test]
fn encrypted_packets_are_ignored() {
    let m = TextMessageModule::new();
    let p = MeshPacket {
        id: 1,
        payload_variant: Some(PayloadVariant::Encrypted(Vec::new())),
        ..Default::default()
    };
    assert!(!m.want_packet(&p));
}

#[test]
fn handle_records_last_text_and_id() {
    let mut m = TextMessageModule::new();
    assert!(m.last_text().is_none());
    let p = text(42, b"hello");
    let decision = m.handle_received(&p, &ctx());
    assert!(matches!(decision, ProcessMessage::Continue));
    assert!(m.recently_seen(42));
    assert_eq!(m.last_text().unwrap().id, 42);
}

#[test]
fn recently_seen_zero_is_never_true() {
    let m = TextMessageModule::new();
    assert!(!m.recently_seen(0));
}

#[test]
fn ring_evicts_oldest() {
    let mut m = TextMessageModule::with_recent_capacity(3);
    m.handle_received(&text(1, b"a"), &ctx());
    m.handle_received(&text(2, b"b"), &ctx());
    m.handle_received(&text(3, b"c"), &ctx());
    assert!(m.recently_seen(1));
    m.handle_received(&text(4, b"d"), &ctx());
    assert!(!m.recently_seen(1), "oldest must be evicted");
    assert!(m.recently_seen(2));
    assert!(m.recently_seen(3));
    assert!(m.recently_seen(4));
}

#[test]
fn clear_last_text_works() {
    let mut m = TextMessageModule::new();
    m.handle_received(&text(1, b"x"), &ctx());
    assert!(m.last_text().is_some());
    m.clear_last_text();
    assert!(m.last_text().is_none());
}

#[test]
fn observer_is_invoked_per_packet() {
    let mut m = TextMessageModule::new();
    let count = Arc::new(AtomicUsize::new(0));
    let c2 = count.clone();
    m.add_observer(move |_p| {
        c2.fetch_add(1, Ordering::SeqCst);
    });
    m.handle_received(&text(1, b"a"), &ctx());
    m.handle_received(&text(2, b"b"), &ctx());
    assert_eq!(count.load(Ordering::SeqCst), 2);
}

#[test]
fn capacity_clamp_to_one() {
    let mut m = TextMessageModule::with_recent_capacity(0);
    m.handle_received(&text(1, b"x"), &ctx());
    assert!(m.recently_seen(1));
    m.handle_received(&text(2, b"y"), &ctx());
    assert!(!m.recently_seen(1));
    assert!(m.recently_seen(2));
}

#[test]
fn text_without_an_id_is_kept_but_not_remembered() {
    let mut m = TextMessageModule::with_recent_capacity(2);
    m.handle_received(&text(1, b"a"), &ctx());
    m.handle_received(&text(0, b"b"), &ctx());
    m.handle_received(&text(2, b"c"), &ctx());
    assert!(m.recently_seen(1));
    assert!(m.recently_seen(2));
    assert!(!m.recently_seen(0));
    assert_eq!(m.last_text().unwrap().id, 2);
}
