//! From radio to radio.

use meshtastic::channels::Channels;
use meshtastic::hal::{Clock, PacketIdAllocator, Rng};
use meshtastic::module::{ModuleDispatcher, RxSource};
use meshtastic::packet::{decrypt, encrypt};
use meshtastic::proto::packet::{Data, MeshPacket, PayloadVariant};
use meshtastic::proto::ports::PORT_TEXT_MESSAGE;
use meshtastic::sim::{SimClock, SimRadioBus, SimRng};
use meshtastic::text_message::TextMessageModule;

const ALICE: u32 = 0x0aaa_aaaa;
const BOB: u32 = 0x0bbb_bbbb;

fn text(from: u32, to: u32, id: u32, body: &str) -> MeshPacket {
    MeshPacket {
        from,
        to,
        id,
        hop_limit: 3,
        hop_start: 3,
        payload_variant: Some(PayloadVariant::Decoded(Data {
            portnum: PORT_TEXT_MESSAGE,
            payload: body.as_bytes().to_vec(),
            ..Default::default()
        })),
        ..Default::default()
    }
}

#[test]
fn alice_radio_to_bob_module_roundtrip() {
    let channels = Channels::with_default_primary();
    let primary = channels.primary_index();

    let clock = SimClock::from_now();
    let _ = clock.millis();
    let mut rng = SimRng::seed_from_u64(0x1234_5678_90ab_cdef);
    let mut ids = PacketIdAllocator::new(rng.clone());
    let packet_id = ids.next_id();
    assert!(packet_id != 0);

    let mut bus = SimRadioBus::new();
    let mut alice_radio = bus.attach(ALICE);
    let mut bob_radio = bus.attach(BOB);

    let mut bob_dispatcher = ModuleDispatcher::new();
    bob_dispatcher.register(TextMessageModule::new());

    let mut outbound = text(ALICE, BOB, packet_id, "hi bob");
    encrypt(&channels, primary, &mut outbound).unwrap();
    alice_radio.send(&mut bus, &outbound).unwrap();

    assert!(alice_radio.try_recv(&mut bus).unwrap().is_none());

    let rx = bob_radio.try_recv(&mut bus).unwrap().expect("Bob should have RX");
    let mut inbound = rx.packet;
    decrypt(&channels, &mut inbound).unwrap();

    let out = bob_dispatcher.dispatch(&inbound, RxSource::Radio, BOB, None);
    assert!(out.module_found, "TextMessageModule must see the packet");
    assert!(out.reply.is_none(), "text module does not auto-reply");

    let _ = rng.next_u32();
}

#[test]
fn broadcast_reaches_every_peer_on_the_bus() {
    let channels = Channels::with_default_primary();
    let primary = channels.primary_index();

    let mut bus = SimRadioBus::new();
    let mut alice = bus.attach(ALICE);
    let mut bob = bus.attach(BOB);
    let mut charlie = bus.attach(0x0ccc_cccc);

    let mut pkt = text(ALICE, u32::MAX, 99, "CQ CQ");
    encrypt(&channels, primary, &mut pkt).unwrap();
    alice.send(&mut bus, &pkt).unwrap();

    let b = bob.try_recv(&mut bus).unwrap().expect("bob RX");
    let c = charlie.try_recv(&mut bus).unwrap().expect("charlie RX");
    assert_eq!(b.packet.id, c.packet.id);
    assert_eq!(b.packet.id, 99);
}
