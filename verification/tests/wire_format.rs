//! The bytes of messages.

use meshtastic::message::{decode, Message};
use meshtastic::proto::channel::{Channel, ChannelFile, ChannelSettings};
use meshtastic::proto::node::{NodeDatabase, NodeInfo, NodeInfoLite, User};
use meshtastic::proto::packet::{Data, MeshPacket, PayloadVariant, Routing, RoutingVariant};
use meshtastic::proto::phone::{FromRadio, ToRadio, ToRadioVariant};
use meshtastic::proto::stored::LocalConfig;
use meshtastic::wire::{decode_fields, WireValue};

#[test]
fn data_bytes() {
    let data = Data {
        portnum: 1,
        payload: b"hi".to_vec(),
        want_response: true,
        ..Default::default()
    };
    assert_eq!(data.encode_to_vec(), vec![0x08, 0x01, 0x12, 0x02, b'h', b'i', 0x18, 0x01]);
    assert_eq!(data.encoded_len(), 8);
}

#[test]
fn packet_bytes() {
    let packet = MeshPacket {
        from: 0x1234_5678,
        channel: 300,
        payload_variant: Some(PayloadVariant::Encrypted(vec![0xab])),
        rx_rssi: -1,
        ..Default::default()
    };
    let mut expected = vec![0x0d, 0x78, 0x56, 0x34, 0x12, 0x18, 0xac, 0x02, 0x2a, 0x01, 0xab];
    expected.extend_from_slice(&[0x60, 0xff, 0xff, 0xff, 0xff, 0xff, 0xff, 0xff, 0xff, 0xff, 0x01]);
    assert_eq!(packet.encode_to_vec(), expected);
    assert_eq!(decode::<MeshPacket>(&expected).unwrap(), packet);
}

#[test]
fn embedded_message_bytes() {
    let channel = Channel {
        index: 1,
        settings: Some(ChannelSettings { name: "ab".to_string(), ..Default::default() }),
        role: 2,
    };
    assert_eq!(
        channel.encode_to_vec(),
        vec![0x08, 0x01, 0x12, 0x04, 0x1a, 0x02, b'a', b'b', 0x18, 0x02]
    );
}

#[test]
fn unknown_fields_are_skipped() {
    let bytes = [0xa0, 0x06, 0x05, 0x08, 0x03, 0xaa, 0x06, 0x01, 0xff];
    let data = decode::<Data>(&bytes).unwrap();
    assert_eq!(data, Data { portnum: 3, ..Default::default() });
}

#[test]
fn groups_are_skipped() {
    let bytes = [0xa3, 0x06, 0x08, 0x07, 0xa4, 0x06, 0x08, 0x03];
    assert_eq!(decode::<Data>(&bytes).unwrap().portnum, 3);
    let fields = decode_fields(&bytes).unwrap();
    assert_eq!(fields.len(), 2);
    assert!(matches!(fields[0].value, WireValue::Group));
    assert_eq!(fields[0].tag, 100);
    assert!(matches!(fields[1].value, WireValue::Varint(3)));
}

#[test]
fn group_without_end_is_refused() {
    assert!(decode::<Data>(&[0xa3, 0x06, 0x08, 0x07]).is_err());
    assert!(decode::<Data>(&[0xa3, 0x06, 0xac, 0x06]).is_err());
}

#[test]
fn malformed_bytes_are_refused() {
    assert!(decode::<Data>(&[0x08]).is_err());
    assert!(decode::<Data>(&[0x12, 0x05, 0x01]).is_err());
    assert!(decode::<Data>(&[0x00]).is_err());
    assert!(decode::<Data>(&[0x0f]).is_err());
    assert!(decode::<Data>(&[0x25, 0x01, 0x02]).is_err());
}

#[test]
fn wrong_wire_type_is_refused() {
    assert!(decode::<Data>(&[0x0d, 0x01, 0x00, 0x00, 0x00]).is_err());
    assert!(decode::<Data>(&[0x10, 0x01]).is_err());
}

#[test]
fn too_long_varint_is_refused() {
    let mut bytes = vec![0x08];
    bytes.extend_from_slice(&[0xff; 9]);
    bytes.push(0x02);
    assert!(decode::<Data>(&bytes).is_err());
    bytes.pop();
    bytes.push(0x01);
    assert_eq!(decode::<Data>(&bytes).unwrap().portnum, -1);
}

#[test]
fn text_must_be_utf8() {
    assert!(decode::<User>(&[0x0a, 0x01, 0xff]).is_err());
    assert_eq!(decode::<User>(&[0x0a, 0x02, 0xc3, 0xa9]).unwrap().id, "\u{e9}");
}

#[test]
fn last_value_of_a_field_counts() {
    assert_eq!(decode::<Data>(&[0x08, 0x01, 0x08, 0x02]).unwrap().portnum, 2);
}

#[test]
fn embedded_messages_are_merged() {
    let bytes = [0x12, 0x03, 0x1a, 0x01, b'a', 0x12, 0x02, 0x08, 0x07];
    let settings = decode::<Channel>(&bytes).unwrap().settings.unwrap();
    assert_eq!(settings.name, "a");
    assert_eq!(settings.channel_num, 7);
}

#[test]
fn last_variant_of_a_payload_counts() {
    let mut bytes = MeshPacket {
        payload_variant: Some(PayloadVariant::Encrypted(vec![1])),
        ..Default::default()
    }
    .encode_to_vec();
    bytes.extend_from_slice(&[0x22, 0x02, 0x08, 0x05]);
    let packet = decode::<MeshPacket>(&bytes).unwrap();
    assert_eq!(
        packet.payload_variant,
        Some(PayloadVariant::Decoded(Data { portnum: 5, ..Default::default() }))
    );
}

#[test]
fn minus_zero_reads_back_as_zero() {
    let packet = MeshPacket { rx_snr: (-0.0f32).to_bits(), id: 9, ..Default::default() };
    let again = decode::<MeshPacket>(&packet.encode_to_vec()).unwrap();
    assert_eq!(again.rx_snr, 0);
    assert_eq!(again.id, 9);
}

#[test]
fn optional_fields_keep_zero() {
    let info = NodeInfo { hops_away: Some(0), ..Default::default() };
    assert_eq!(info.encode_to_vec(), vec![0x48, 0x00]);
    assert_eq!(decode::<NodeInfo>(&[0x48, 0x00]).unwrap().hops_away, Some(0));
    assert_eq!(decode::<NodeInfo>(&[]).unwrap().hops_away, None);
}

#[test]
fn opaque_field_must_hold_whole_fields() {
    assert!(decode::<NodeInfo>(&[0x1a, 0x01, 0x0d]).is_err());
    let info = decode::<NodeInfo>(&[0x1a, 0x02, 0x18, 0x05, 0x1a, 0x02, 0x28, 0x06]).unwrap();
    assert_eq!(info.position, Some(vec![0x18, 0x05, 0x28, 0x06]));
}

#[test]
fn repeated_messages_keep_their_order() {
    let db = NodeDatabase {
        version: 24,
        nodes: vec![
            NodeInfoLite { num: 2, ..Default::default() },
            NodeInfoLite { num: 1, ..Default::default() },
        ],
    };
    let bytes = db.encode_to_vec();
    assert_eq!(bytes, vec![0x08, 24, 0x12, 0x02, 0x08, 0x02, 0x12, 0x02, 0x08, 0x01]);
    assert_eq!(decode::<NodeDatabase>(&bytes).unwrap(), db);
    let channels = vec![Channel { index: 1, ..Default::default() }];
    let file = ChannelFile { channels, version: 3 };
    assert_eq!(file.encode_to_vec(), vec![0x0a, 0x02, 0x08, 0x01, 0x10, 0x03]);
}

#[test]
fn routing_error_bytes() {
    let routing = Routing { variant: Some(RoutingVariant::ErrorReason(0)) };
    assert_eq!(routing.encode_to_vec(), vec![0x18, 0x00]);
    assert_eq!(decode::<Routing>(&[0x18, 0x00]).unwrap(), routing);
}

#[test]
fn frame_bytes_of_the_phone() {
    let frame = ToRadio { payload_variant: Some(ToRadioVariant::WantConfigId(69420)) };
    assert_eq!(frame.encode_to_vec(), vec![0x18, 0xac, 0x9e, 0x04]);
}

#[test]
fn stored_fields_that_are_known_are_kept() {
    let bytes = [0x0a, 0x02, 0x08, 0x01, 0x40, 0x17, 0x4a, 0x00, 0x92, 0x03, 0x01, 0x00];
    let config = decode::<LocalConfig>(&bytes).unwrap();
    assert_eq!(config.version, 23);
    assert_eq!(config.rest.len(), 2);
    assert_eq!(config.encode_to_vec(), bytes[..8].to_vec());
}

#[test]
fn nested_bodies_are_checked() {
    let ok = [0x1a, 0x05, 0x0d, 0x01, 0x00, 0x00, 0x00];
    assert_eq!(
        decode::<NodeInfo>(&ok).unwrap().position.unwrap(),
        vec![0x0d, 0x01, 0x00, 0x00, 0x00]
    );
    assert!(decode::<NodeInfo>(&[0x1a, 0x02, 0x08, 0x01]).is_err());
    let unknown = [0x1a, 0x03, 0xa0, 0x06, 0x01];
    assert_eq!(decode::<NodeInfo>(&unknown).unwrap().position.unwrap(), Vec::<u8>::new());
    assert!(decode::<Routing>(&[0x0a, 0x03, 0x0a, 0x01, 0x00]).is_err());
    assert!(decode::<Routing>(&[0x0a, 0x06, 0x0a, 0x04, 0x01, 0x00, 0x00, 0x00]).is_ok());
    assert!(decode::<FromRadio>(&[0x2a, 0x03, 0x0a, 0x01, 0xff]).is_err());
    assert!(decode::<FromRadio>(&[0x4a, 0x02, 0x08, 0x01]).is_err());
}

fn groups(depth: usize) -> Vec<u8> {
    let mut bytes = vec![0xa3, 0x06];
    bytes = bytes.repeat(depth);
    bytes.extend([0xa4, 0x06].repeat(depth));
    bytes
}

#[test]
fn groups_are_nested_no_deeper_than_in_prost() {
    for depth in [1, 2, 99, 100, 101] {
        let bytes = groups(depth);
        let mut body = &bytes[2..];
        let ctx = prost::encoding::DecodeContext::default();
        let start = prost::encoding::WireType::StartGroup;
        let skipped = prost::encoding::skip_field(start, 100, &mut body, ctx);
        assert_eq!(decode::<Data>(&bytes).is_ok(), skipped.is_ok());
        assert_eq!(decode::<Data>(&bytes).is_ok(), depth <= 100);
        let mut packet = vec![0x22];
        prost::encoding::encode_varint(bytes.len() as u64, &mut packet);
        packet.extend(bytes);
        assert_eq!(decode::<MeshPacket>(&packet).is_ok(), depth <= 99);
        let mut frame = vec![0x0a];
        prost::encoding::encode_varint(packet.len() as u64, &mut frame);
        frame.extend(packet);
        assert_eq!(decode::<ToRadio>(&frame).is_ok(), depth <= 98);
    }
}
