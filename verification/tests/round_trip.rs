//! Messages read back as they were written.

use meshtastic::message::{decode, Message};
use meshtastic::proto::channel::{Channel, ChannelSettings};
use meshtastic::proto::node::{NodeInfo, User};
use meshtastic::proto::packet::{MeshPacket, PayloadVariant, Routing};

fn round_trip<M: Message + PartialEq + std::fmt::Debug>(msg: &M) -> Vec<u8> {
    let bytes = msg.encode_to_vec();
    let decoded = decode::<M>(&bytes).expect("decode must succeed");
    assert_eq!(*msg, decoded, "round-trip mismatch");

    assert_eq!(msg.encoded_len(), bytes.len(), "encoded_len() mismatch");
    bytes
}

#[test]
fn mesh_packet_encrypted_round_trip() {
    let packet = MeshPacket {
        from: 0x1234_5678,
        to: 0xffff_ffff,
        channel: 1,
        id: 0xdead_beef,
        rx_time: 1_700_000_000,
        rx_snr: (-7.5f32).to_bits(),
        hop_limit: 3,
        want_ack: true,
        priority: 0,
        rx_rssi: -110,
        hop_start: 3,
        payload_variant: Some(PayloadVariant::Encrypted(vec![0xde, 0xad, 0xbe, 0xef, 0x00, 0xff])),
        ..Default::default()
    };
    let bytes = round_trip(&packet);
    assert!(!bytes.is_empty());
}

#[test]
fn user_with_tdeck_hardware_model_round_trip() {
    let user = User {
        id: "!12345678".into(),
        long_name: "Test Node".into(),
        short_name: "TST".into(),
        hw_model: 50,
        is_licensed: false,
        public_key: vec![0x55; 32],
        ..Default::default()
    };
    round_trip(&user);
}

#[test]
fn routing_oneof_default() {
    let routing = Routing::default();
    let bytes = routing.encode_to_vec();
    assert!(bytes.is_empty(), "default Routing must encode to zero bytes");
    let decoded = decode::<Routing>(&bytes).unwrap();
    assert_eq!(routing, decoded);
}

#[test]
fn channel_with_settings_round_trip() {
    let channel = Channel {
        index: 0,
        settings: Some(ChannelSettings {
            psk: vec![1; 16],
            name: "LongFast".into(),
            id: 0xc0de_d00d,
            uplink_enabled: true,
            downlink_enabled: false,
            ..Default::default()
        }),
        role: 1,
    };
    round_trip(&channel);
}

#[test]
fn nodeinfo_round_trip_optional_fields() {
    let info = NodeInfo {
        num: 0x9999_8888,
        user: Some(User {
            id: "!99998888".into(),
            long_name: "Neighbour".into(),
            short_name: "NBR".into(),
            ..Default::default()
        }),
        position: Some(vec![0x0d, 0, 0, 0, 0, 0x15, 0, 0, 0, 0]),
        snr: (6.25f32).to_bits(),
        last_heard: 1_700_000_003,
        hops_away: Some(2),
        is_favorite: true,
        ..Default::default()
    };
    round_trip(&info);
}

#[test]
fn mesh_packet_default_is_empty_wire() {
    let bytes = MeshPacket::default().encode_to_vec();
    assert!(
        bytes.is_empty(),
        "default MeshPacket must serialize to zero bytes; got {bytes:?}"
    );
}

#[test]
fn mesh_packet_id_is_stable_across_encode_cycles() {
    let mut packet = MeshPacket {
        from: 1,
        to: 2,
        id: 42,
        payload_variant: Some(PayloadVariant::Encrypted(vec![9, 9, 9])),
        ..Default::default()
    };
    for _ in 0..4 {
        let bytes = packet.encode_to_vec();
        packet = decode::<MeshPacket>(&bytes).unwrap();
        assert_eq!(packet.id, 42);
    }
}
