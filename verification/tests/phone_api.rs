//! The link to the phone.

use meshtastic::message::{decode, Message};
use meshtastic::phone_api::{
    ConfigSnapshot, PhoneApi, PhoneApiError, State, MAX_TO_FROM_RADIO_SIZE, RECENT_TO_RADIO_DEDUP,
};
use meshtastic::proto::channel::Channel;
use meshtastic::proto::config::Section;
use meshtastic::proto::node::{DeviceMetadata, MyNodeInfo, NodeInfo};
use meshtastic::proto::packet::{Data, MeshPacket, PayloadVariant};
use meshtastic::proto::phone::{
    FromRadio, FromRadioVariant, Heartbeat, LogRecord, QueueStatus, ToRadio, ToRadioVariant,
};
use meshtastic::proto::ports::PORT_TEXT_MESSAGE;

fn snapshot() -> ConfigSnapshot {
    ConfigSnapshot {
        config: vec![
            Section { number: 1, body: Vec::new() },
            Section { number: 6, body: Vec::new() },
        ],
        module_config: vec![Section { number: 1, body: Vec::new() }],
    }
}

fn build_phone_api() -> PhoneApi {
    let mut api = PhoneApi::new();
    api.set_my_info(MyNodeInfo {
        my_node_num: 0x0aaa_aaaa,
        ..Default::default()
    });
    api.set_metadata(DeviceMetadata::default());
    api.set_channels(vec![Channel::default(), Channel::default()]);
    api.set_config_snapshot(snapshot());
    api.set_node_db(vec![
        NodeInfo {
            num: 0x0aaa_aaaa,
            ..Default::default()
        },
        NodeInfo {
            num: 0x0bbb_bbbb,
            ..Default::default()
        },
    ]);
    api
}

fn want_config(nonce: u32) -> Vec<u8> {
    ToRadio {
        payload_variant: Some(ToRadioVariant::WantConfigId(nonce)),
    }
    .encode_to_vec()
}

fn decode_from_radio(bytes: &[u8]) -> FromRadio {
    decode::<FromRadio>(bytes).expect("FromRadio must decode")
}

#[test]
fn fresh_instance_is_disconnected() {
    let api = PhoneApi::new();
    assert_eq!(api.state(), State::Disconnected);
    assert!(!api.is_connected());
    assert!(!api.is_sending_packets());
    assert_eq!(api.config_nonce(), 0);
}

#[test]
fn pop_returns_none_until_handshake_starts() {
    let mut api = build_phone_api();
    assert!(api.pop_from_radio().unwrap().is_none());
}

#[test]
fn full_handshake_emits_expected_sequence_with_matching_nonce() {
    let mut api = build_phone_api();
    let outcome = api.handle_to_radio(&want_config(0xdead_beef)).unwrap();
    assert!(outcome.packet_to_send.is_none());
    assert!(api.is_connected());
    assert_eq!(api.config_nonce(), 0xdead_beef);

    let mut emitted = Vec::new();
    let mut last_id = 0;
    while let Some(frame) = api.pop_from_radio().unwrap() {
        let fr = decode_from_radio(&frame);
        assert!(fr.id > last_id, "FromRadio.id must monotonically increase");
        last_id = fr.id;
        emitted.push(fr.payload_variant.expect("payload variant present"));
    }

    assert_eq!(emitted.len(), 10, "got {emitted:#?}");
    assert!(matches!(emitted[0], FromRadioVariant::MyInfo(_)));
    assert!(matches!(emitted[1], FromRadioVariant::Metadata(_)));
    assert!(matches!(emitted[2], FromRadioVariant::Channel(_)));
    assert!(matches!(emitted[3], FromRadioVariant::Channel(_)));
    assert!(matches!(emitted[4], FromRadioVariant::Config(_)));
    assert!(matches!(emitted[5], FromRadioVariant::Config(_)));
    assert!(matches!(emitted[6], FromRadioVariant::ModuleConfig(_)));
    assert!(matches!(emitted[7], FromRadioVariant::NodeInfo(_)));
    assert!(matches!(emitted[8], FromRadioVariant::NodeInfo(_)));
    assert!(matches!(
        emitted[9],
        FromRadioVariant::ConfigCompleteId(0xdead_beef)
    ));

    assert!(api.is_sending_packets());
    assert_eq!(api.config_nonce(), 0);
}

#[test]
fn handshake_skips_missing_optional_pieces() {
    let mut api = PhoneApi::new();
    api.set_config_snapshot(ConfigSnapshot::default());
    api.set_node_db(Vec::new());
    api.handle_to_radio(&want_config(7)).unwrap();

    let mut payloads = Vec::new();
    while let Some(buf) = api.pop_from_radio().unwrap() {
        payloads.push(decode_from_radio(&buf).payload_variant.unwrap());
    }
    assert_eq!(payloads.len(), 1);
    assert!(matches!(payloads[0], FromRadioVariant::ConfigCompleteId(7)));
    assert!(api.is_sending_packets());
}

#[test]
fn steady_state_emits_queue_status_log_packet_in_order() {
    let mut api = build_phone_api();
    api.handle_to_radio(&want_config(1)).unwrap();
    while let Some(buf) = api.pop_from_radio().unwrap() {
        let fr = decode_from_radio(&buf);
        if matches!(
            fr.payload_variant,
            Some(FromRadioVariant::ConfigCompleteId(_))
        ) {
            break;
        }
    }
    assert!(api.is_sending_packets());

    api.enqueue_queue_status(QueueStatus {
        mesh_packet_id: 42,
        ..Default::default()
    });
    api.enqueue_log_record(LogRecord {
        message: "hi".into(),
        ..Default::default()
    });
    let pkt = MeshPacket {
        id: 99,
        payload_variant: Some(PayloadVariant::Decoded(Data {
            portnum: PORT_TEXT_MESSAGE,
            payload: b"yo".to_vec(),
            ..Default::default()
        })),
        ..Default::default()
    };
    assert!(api.enqueue_packet_for_phone(pkt));

    let v1 = decode_from_radio(&api.pop_from_radio().unwrap().unwrap()).payload_variant;
    assert!(matches!(v1, Some(FromRadioVariant::QueueStatus(_))));
    let v2 = decode_from_radio(&api.pop_from_radio().unwrap().unwrap()).payload_variant;
    assert!(matches!(v2, Some(FromRadioVariant::LogRecord(_))));
    let v3 = decode_from_radio(&api.pop_from_radio().unwrap().unwrap()).payload_variant;
    match v3 {
        Some(FromRadioVariant::Packet(p)) => assert_eq!(p.id, 99),
        other => panic!("expected Packet, got {other:?}"),
    }
    assert!(api.pop_from_radio().unwrap().is_none());
}

#[test]
fn enqueue_before_handshake_complete_is_dropped() {
    let mut api = build_phone_api();
    assert!(!api.enqueue_packet_for_phone(MeshPacket::default()));
    assert!(!api.enqueue_log_record(LogRecord::default()));
    assert!(!api.enqueue_queue_status(QueueStatus::default()));
}

#[test]
fn to_radio_packet_dispatches_to_caller() {
    let mut api = build_phone_api();
    let pkt = MeshPacket {
        id: 0xcafe,
        from: 0x0aaa_aaaa,
        ..Default::default()
    };
    let to_radio = ToRadio {
        payload_variant: Some(ToRadioVariant::Packet(pkt.clone())),
    }
    .encode_to_vec();
    let outcome = api.handle_to_radio(&to_radio).unwrap();
    assert_eq!(outcome.packet_to_send.as_ref().map(|p| p.id), Some(0xcafe));
    assert!(!outcome.deduped);

    let outcome2 = api.handle_to_radio(&to_radio).unwrap();
    assert!(outcome2.deduped);
    assert!(outcome2.packet_to_send.is_none());
}

#[test]
fn dedup_only_applies_to_nonzero_ids() {
    let mut api = build_phone_api();
    let pkt = MeshPacket {
        id: 0,
        ..Default::default()
    };
    let bytes = ToRadio {
        payload_variant: Some(ToRadioVariant::Packet(pkt)),
    }
    .encode_to_vec();
    let o1 = api.handle_to_radio(&bytes).unwrap();
    let o2 = api.handle_to_radio(&bytes).unwrap();
    assert!(o1.packet_to_send.is_some() && !o1.deduped);
    assert!(o2.packet_to_send.is_some() && !o2.deduped);
}

#[test]
fn dedup_window_is_bounded() {
    let mut api = build_phone_api();
    for i in 1..=(RECENT_TO_RADIO_DEDUP as u32 + 1) {
        let bytes = ToRadio {
            payload_variant: Some(ToRadioVariant::Packet(MeshPacket {
                id: i,
                ..Default::default()
            })),
        }
        .encode_to_vec();
        api.handle_to_radio(&bytes).unwrap();
    }
    let bytes = ToRadio {
        payload_variant: Some(ToRadioVariant::Packet(MeshPacket {
            id: 1,
            ..Default::default()
        })),
    }
    .encode_to_vec();
    let outcome = api.handle_to_radio(&bytes).unwrap();
    assert!(!outcome.deduped, "evicted id should not be deduped");
    let bytes = ToRadio {
        payload_variant: Some(ToRadioVariant::Packet(MeshPacket {
            id: 21,
            ..Default::default()
        })),
    }
    .encode_to_vec();
    let outcome = api.handle_to_radio(&bytes).unwrap();
    assert!(outcome.deduped, "id still in window must be deduped");
}

#[test]
fn disconnect_resets_state() {
    let mut api = build_phone_api();
    api.handle_to_radio(&want_config(11)).unwrap();
    assert!(api.is_connected());

    let bytes = ToRadio {
        payload_variant: Some(ToRadioVariant::Disconnect(true)),
    }
    .encode_to_vec();
    let outcome = api.handle_to_radio(&bytes).unwrap();
    assert!(outcome.disconnect);
    assert!(!api.is_connected());
    assert_eq!(api.config_nonce(), 0);
}

#[test]
fn restarting_handshake_mid_stream_resets() {
    let mut api = build_phone_api();
    api.handle_to_radio(&want_config(1)).unwrap();
    let _ = api.pop_from_radio().unwrap();
    let _ = api.pop_from_radio().unwrap();
    assert!(matches!(api.state(), State::SendChannel(_) | State::SendMetadata));

    api.handle_to_radio(&want_config(2)).unwrap();
    assert_eq!(api.state(), State::SendMyInfo);
    assert_eq!(api.config_nonce(), 2);
}

#[test]
fn heartbeat_sets_flag_only() {
    let mut api = build_phone_api();
    api.handle_to_radio(&want_config(1)).unwrap();
    let bytes = ToRadio {
        payload_variant: Some(ToRadioVariant::Heartbeat(Heartbeat::default())),
    }
    .encode_to_vec();
    let outcome = api.handle_to_radio(&bytes).unwrap();
    assert!(outcome.heartbeat);
    assert!(outcome.packet_to_send.is_none());
    assert!(!outcome.disconnect);
}

#[test]
fn malformed_to_radio_returns_decode_error() {
    let mut api = PhoneApi::new();
    let err = api.handle_to_radio(&[0xff, 0xff, 0xff, 0xff]).unwrap_err();
    assert!(matches!(err, PhoneApiError::Decode(_)));
}

#[test]
fn oversize_to_radio_rejected() {
    let mut api = PhoneApi::new();
    let big = vec![0u8; MAX_TO_FROM_RADIO_SIZE + 1];
    let err = api.handle_to_radio(&big).unwrap_err();
    assert!(matches!(err, PhoneApiError::FrameTooLarge { .. }));
}

#[test]
fn from_radio_ids_are_monotonic_and_start_at_one() {
    let mut api = build_phone_api();
    api.handle_to_radio(&want_config(5)).unwrap();
    let frame = decode_from_radio(&api.pop_from_radio().unwrap().unwrap());
    assert_eq!(frame.id, 1);
    let frame2 = decode_from_radio(&api.pop_from_radio().unwrap().unwrap());
    assert_eq!(frame2.id, 2);
}

fn connected() -> PhoneApi {
    let mut api = PhoneApi::new();
    api.handle_to_radio(&want_config(1)).unwrap();
    while api.pop_from_radio().unwrap().is_some() {}
    api
}

#[test]
fn frame_that_is_too_large_is_lost() {
    let mut api = connected();
    api.enqueue_log_record(LogRecord { message: "x".repeat(600), ..Default::default() });
    api.enqueue_log_record(LogRecord { message: "y".to_string(), ..Default::default() });
    match api.pop_from_radio() {
        Err(PhoneApiError::EncodedTooLarge { size }) => assert_eq!(size, 608),
        other => panic!("{:?}", other),
    }
    let frame = decode_from_radio(&api.pop_from_radio().unwrap().unwrap());
    assert_eq!(frame.id, 3);
    assert!(matches!(frame.payload_variant, Some(FromRadioVariant::LogRecord(r)) if r.message == "y"));
}

#[test]
fn repetition_is_found_before_twenty_others() {
    let mut api = PhoneApi::default();
    let frame = |id: u32| {
        ToRadio {
            payload_variant: Some(ToRadioVariant::Packet(MeshPacket { id, ..Default::default() })),
        }
        .encode_to_vec()
    };
    api.handle_to_radio(&frame(7)).unwrap();
    for id in 100..119 {
        assert!(!api.handle_to_radio(&frame(id)).unwrap().deduped);
    }
    assert!(api.handle_to_radio(&frame(7)).unwrap().deduped);
    assert!(!api.handle_to_radio(&frame(119)).unwrap().deduped);
    assert!(!api.handle_to_radio(&frame(7)).unwrap().deduped);
}

#[test]
fn refused_frame_changes_nothing() {
    let mut api = build_phone_api();
    api.handle_to_radio(&want_config(5)).unwrap();
    assert!(api.handle_to_radio(&[0xff]).is_err());
    assert!(api.handle_to_radio(&vec![0; 513]).is_err());
    assert_eq!(api.state(), State::SendMyInfo);
    assert_eq!(api.config_nonce(), 5);
}

#[test]
fn other_frames_ask_nothing() {
    let mut api = connected();
    for payload_variant in [Some(ToRadioVariant::Disconnect(false)), None] {
        let outcome = api.handle_to_radio(&ToRadio { payload_variant }.encode_to_vec()).unwrap();
        assert_eq!(outcome, Default::default());
    }
    assert!(api.is_sending_packets());
    api.close();
    assert!(!api.is_connected());
    assert!(!api.enqueue_packet_for_phone(MeshPacket::default()));
}

#[test]
fn section_frames() {
    let mut api = PhoneApi::new();
    api.set_config_snapshot(ConfigSnapshot {
        config: vec![Section { number: 6, body: vec![0x08, 0x01] }],
        module_config: Vec::new(),
    });
    api.handle_to_radio(&want_config(9)).unwrap();
    assert_eq!(
        api.pop_from_radio().unwrap().unwrap(),
        vec![0x08, 0x01, 0x2a, 0x04, 0x32, 0x02, 0x08, 0x01]
    );
    assert_eq!(api.pop_from_radio().unwrap().unwrap(), vec![0x08, 0x02, 0x38, 0x09]);
}
