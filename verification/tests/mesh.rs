//! Node numbers and hop counts.

use meshtastic::mesh::{
    classify_hop_start, get_from, hops_away, is_from_us, last_byte_of_node_num, HopStartStatus,
};
use meshtastic::proto::packet::{Data, MeshPacket, PayloadVariant};

fn decoded(bitfield: Option<u32>) -> MeshPacket {
    MeshPacket {
        payload_variant: Some(PayloadVariant::Decoded(Data {
            bitfield,
            ..Default::default()
        })),
        ..Default::default()
    }
}

#[test]
fn get_from_substitutes_local_node_when_zero() {
    let p = MeshPacket {
        from: 0,
        ..Default::default()
    };
    assert_eq!(get_from(&p, 0x1234), 0x1234);
    let p2 = MeshPacket {
        from: 0xabcd,
        ..Default::default()
    };
    assert_eq!(get_from(&p2, 0x1234), 0xabcd);
}

#[test]
fn is_from_us_matches_zero_or_our_num() {
    let p = MeshPacket {
        from: 0,
        ..Default::default()
    };
    assert!(is_from_us(&p, 0x42));
    let p2 = MeshPacket {
        from: 0x42,
        ..Default::default()
    };
    assert!(is_from_us(&p2, 0x42));
    let p3 = MeshPacket {
        from: 0x43,
        ..Default::default()
    };
    assert!(!is_from_us(&p3, 0x42));
}

#[test]
fn classify_hop_start_invalid_when_less_than_limit() {
    let p = MeshPacket {
        hop_start: 1,
        hop_limit: 3,
        ..Default::default()
    };
    assert_eq!(classify_hop_start(&p), HopStartStatus::Invalid);
}

#[test]
fn classify_hop_start_valid_when_nonzero() {
    let p = MeshPacket {
        hop_start: 3,
        hop_limit: 2,
        ..Default::default()
    };
    assert_eq!(classify_hop_start(&p), HopStartStatus::Valid);
}

#[test]
fn classify_hop_start_missing_on_encrypted_zero() {
    let p = MeshPacket {
        hop_start: 0,
        hop_limit: 0,
        payload_variant: Some(PayloadVariant::Encrypted(Vec::new())),
        ..Default::default()
    };
    assert_eq!(classify_hop_start(&p), HopStartStatus::MissingOrUnknown);
}

#[test]
fn classify_hop_start_valid_on_decoded_with_bitfield() {
    let p = decoded(Some(0));
    assert_eq!(classify_hop_start(&p), HopStartStatus::Valid);
}

#[test]
fn classify_hop_start_missing_on_decoded_without_bitfield() {
    let p = decoded(None);
    assert_eq!(classify_hop_start(&p), HopStartStatus::MissingOrUnknown);
}

#[test]
fn hops_away_computes_diff() {
    let p = MeshPacket {
        hop_start: 5,
        hop_limit: 3,
        ..Default::default()
    };
    assert_eq!(hops_away(&p), Some(2));
}

#[test]
fn hops_away_none_when_unknown() {
    let p = MeshPacket {
        hop_start: 0,
        hop_limit: 0,
        payload_variant: Some(PayloadVariant::Encrypted(Vec::new())),
        ..Default::default()
    };
    assert_eq!(hops_away(&p), None);
}

#[test]
fn hops_away_none_when_invalid() {
    let p = MeshPacket {
        hop_start: 1,
        hop_limit: 5,
        ..Default::default()
    };
    assert_eq!(hops_away(&p), None);
}

#[test]
fn last_byte_remaps_zero_to_ff() {
    assert_eq!(last_byte_of_node_num(0xdead_be00), 0xff);
    assert_eq!(last_byte_of_node_num(0xdead_be42), 0x42);
}
