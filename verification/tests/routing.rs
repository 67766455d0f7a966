//! Routing decisions.

use meshtastic::mesh::NodeNum;
use meshtastic::message::decode;
use meshtastic::module::MeshModule;
use meshtastic::proto::packet::{Data, MeshPacket, PayloadVariant, Routing, RoutingVariant};
use meshtastic::proto::ports::{RoutingError, PORT_ROUTING, PRIORITY_ACK};
use meshtastic::routing::{
    alloc_ack_nak, configured_or_default_hop_limit, hop_limit_for_response, rebroadcast_decision,
    RebroadcastDecision, RebroadcastInputs, RebroadcastMode, RoutingModule, UserLicenseStatus,
    HOP_MAX, HOP_RELIABLE,
};

const ALICE: NodeNum = 0x0aaa_aaaa;
const BOB: NodeNum = 0x0bbb_bbbb;

fn encrypted_packet(from: NodeNum, to: NodeNum, channel: u32) -> MeshPacket {
    MeshPacket {
        from,
        to,
        channel,
        hop_limit: 3,
        hop_start: 3,
        payload_variant: Some(PayloadVariant::Encrypted(vec![0xab; 16])),
        ..Default::default()
    }
}

fn decoded_packet(from: NodeNum, to: NodeNum, hop_start: u32, hop_limit: u32) -> MeshPacket {
    MeshPacket {
        from,
        to,
        hop_start,
        hop_limit,
        payload_variant: Some(PayloadVariant::Decoded(Data::default())),
        ..Default::default()
    }
}

#[test]
fn module_flags_match_firmware() {
    let m = RoutingModule::new();
    assert!(m.is_promiscuous());
    assert!(m.encrypted_ok());
    assert!(m.want_packet(&decoded_packet(ALICE, BOB, 3, 3)));
    assert!(m.want_packet(&encrypted_packet(ALICE, BOB, 0)));
}

#[test]
fn module_never_replies() {
    let mut m = RoutingModule::new();
    let p = decoded_packet(ALICE, BOB, 3, 3);
    assert!(m.alloc_reply(&p).is_none());
}

#[test]
fn rebroadcast_allows_in_all_mode_without_license_concerns() {
    let p = encrypted_packet(ALICE, BOB, 0);
    let inputs = RebroadcastInputs {
        mode: RebroadcastMode::All,
        ..Default::default()
    };
    assert_eq!(rebroadcast_decision(&p, inputs), RebroadcastDecision::Allow);
}

#[test]
fn rebroadcast_local_only_drops_non_pki_encrypted() {
    let p = encrypted_packet(ALICE, BOB, 3);
    let inputs = RebroadcastInputs {
        mode: RebroadcastMode::LocalOnly,
        ..Default::default()
    };
    assert_eq!(rebroadcast_decision(&p, inputs), RebroadcastDecision::Drop);
}

#[test]
fn rebroadcast_local_only_drops_broadcast_encrypted() {
    let p = encrypted_packet(ALICE, u32::MAX, 0);
    let inputs = RebroadcastInputs {
        mode: RebroadcastMode::LocalOnly,
        ..Default::default()
    };
    assert_eq!(rebroadcast_decision(&p, inputs), RebroadcastDecision::Drop);
}

#[test]
fn rebroadcast_local_only_allows_pki_dm_when_recipient_known() {
    let p = encrypted_packet(ALICE, BOB, 0);
    let inputs = RebroadcastInputs {
        mode: RebroadcastMode::LocalOnly,
        recipient_known_with_user: true,
        ..Default::default()
    };
    assert_eq!(rebroadcast_decision(&p, inputs), RebroadcastDecision::Allow);
}

#[test]
fn rebroadcast_local_only_drops_pki_dm_when_neither_known() {
    let p = encrypted_packet(ALICE, BOB, 0);
    let inputs = RebroadcastInputs {
        mode: RebroadcastMode::LocalOnly,
        sender_known_with_user: false,
        recipient_known_with_user: false,
        ..Default::default()
    };
    assert_eq!(rebroadcast_decision(&p, inputs), RebroadcastDecision::Drop);
}

#[test]
fn rebroadcast_known_only_same_rules_as_local_only() {
    let p = encrypted_packet(ALICE, BOB, 0);
    let inputs = RebroadcastInputs {
        mode: RebroadcastMode::KnownOnly,
        sender_known_with_user: true,
        ..Default::default()
    };
    assert_eq!(rebroadcast_decision(&p, inputs), RebroadcastDecision::Allow);
}

#[test]
fn rebroadcast_licensed_drops_unlicensed_peer() {
    let p = decoded_packet(ALICE, BOB, 3, 3);
    let inputs = RebroadcastInputs {
        mode: RebroadcastMode::All,
        we_are_licensed: true,
        sender_license_status: UserLicenseStatus::NotLicensed,
        recipient_license_status: UserLicenseStatus::Unknown,
        ..Default::default()
    };
    assert_eq!(rebroadcast_decision(&p, inputs), RebroadcastDecision::Drop);
}

#[test]
fn rebroadcast_licensed_drops_unlicensed_recipient() {
    let p = decoded_packet(ALICE, BOB, 3, 3);
    let inputs = RebroadcastInputs {
        mode: RebroadcastMode::All,
        we_are_licensed: true,
        sender_license_status: UserLicenseStatus::Licensed,
        recipient_license_status: UserLicenseStatus::NotLicensed,
        ..Default::default()
    };
    assert_eq!(rebroadcast_decision(&p, inputs), RebroadcastDecision::Drop);
}

#[test]
fn rebroadcast_licensed_allows_unknown_license_status() {
    let p = decoded_packet(ALICE, BOB, 3, 3);
    let inputs = RebroadcastInputs {
        mode: RebroadcastMode::All,
        we_are_licensed: true,
        sender_license_status: UserLicenseStatus::Unknown,
        recipient_license_status: UserLicenseStatus::Unknown,
        ..Default::default()
    };
    assert_eq!(rebroadcast_decision(&p, inputs), RebroadcastDecision::Allow);
}

#[test]
fn hop_limit_direct_request_stays_direct() {
    let mut p = MeshPacket {
        hop_start: 0,
        hop_limit: 0,
        payload_variant: Some(PayloadVariant::Decoded(Data {
            bitfield: Some(0),
            ..Default::default()
        })),
        ..Default::default()
    };
    assert_eq!(hop_limit_for_response(&p, 5, false), 0);
    p.hop_limit = 0;
    assert_eq!(hop_limit_for_response(&p, 5, true), 0);
}

#[test]
fn hop_limit_uses_hops_plus_margin_when_within_limit() {
    let p = decoded_packet(ALICE, BOB, 5, 3);
    assert_eq!(hop_limit_for_response(&p, 7, false), 4);
}

#[test]
fn hop_limit_mirrors_over_limit_request_outside_event_mode() {
    let p = decoded_packet(ALICE, BOB, 6, 0);
    assert_eq!(hop_limit_for_response(&p, 3, false), 6);
}

#[test]
fn hop_limit_clamps_to_hop_max_when_mirroring() {
    let p = decoded_packet(ALICE, BOB, 10, 0);
    assert_eq!(hop_limit_for_response(&p, 3, false), HOP_MAX);
}

#[test]
fn hop_limit_event_mode_suppresses_mirroring() {
    let p = decoded_packet(ALICE, BOB, 6, 0);
    assert_eq!(hop_limit_for_response(&p, 3, true), 3);
}

#[test]
fn hop_limit_falls_through_when_hops_unknown() {
    let mut p = encrypted_packet(ALICE, BOB, 0);
    p.hop_start = 0;
    p.hop_limit = 0;
    assert_eq!(hop_limit_for_response(&p, 3, false), 3);
}

#[test]
fn configured_or_default_caps_at_hop_max() {
    assert_eq!(configured_or_default_hop_limit(HOP_MAX, false), HOP_MAX);
    assert_eq!(configured_or_default_hop_limit(HOP_MAX + 5, false), HOP_MAX);
    assert_eq!(configured_or_default_hop_limit(2, false), 2);
}

#[test]
fn configured_or_default_caps_at_hop_reliable_in_event_mode() {
    assert_eq!(configured_or_default_hop_limit(HOP_MAX, true), HOP_RELIABLE);
    assert_eq!(configured_or_default_hop_limit(HOP_RELIABLE, true), HOP_RELIABLE);
    assert_eq!(configured_or_default_hop_limit(1, true), 1);
}

#[test]
fn alloc_ack_nak_fills_expected_fields() {
    let p = alloc_ack_nak(RoutingError::NoRoute, ALICE, 0xdead_beef, 2, 5);
    assert_eq!(p.to, ALICE);
    assert_eq!(p.channel, 2);
    assert_eq!(p.hop_limit, 5);
    assert_eq!(
        p.priority,
        PRIORITY_ACK
    );
    let Some(PayloadVariant::Decoded(d)) = p.payload_variant else {
        panic!("decoded payload expected");
    };
    assert_eq!(d.portnum, PORT_ROUTING);
    assert_eq!(d.request_id, 0xdead_beef);
    let decoded = decode::<Routing>(&d.payload).unwrap();
    match decoded.variant {
        Some(RoutingVariant::ErrorReason(e)) => assert_eq!(e, RoutingError::NoRoute.number()),
        _ => panic!("wrong variant"),
    }
}

#[test]
fn alloc_ack_nak_none_error_is_a_plain_ack() {
    let p = alloc_ack_nak(RoutingError::NoError, BOB, 1, 0, 3);
    let Some(PayloadVariant::Decoded(d)) = p.payload_variant else {
        panic!()
    };
    let decoded = decode::<Routing>(&d.payload).unwrap();
    assert!(matches!(decoded.variant, Some(RoutingVariant::ErrorReason(0))));
}

#[test]
fn rebroadcast_of_a_broadcast_has_no_recipient_to_license() {
    let p = decoded_packet(ALICE, u32::MAX, 3, 3);
    let inputs = RebroadcastInputs {
        mode: RebroadcastMode::All,
        we_are_licensed: true,
        sender_license_status: UserLicenseStatus::Licensed,
        recipient_license_status: UserLicenseStatus::NotLicensed,
        ..Default::default()
    };
    assert_eq!(rebroadcast_decision(&p, inputs), RebroadcastDecision::Allow);
}

#[test]
fn rebroadcast_decisions_in_words() {
    assert_eq!(RebroadcastDecision::Allow.describe(), "allow");
    assert_eq!(RebroadcastDecision::Drop.describe(), "drop");
}

#[test]
fn response_hop_limits_are_bounded() {
    for hop_start in 0..20 {
        for hop_limit in 0..20 {
            for configured in 0..20 {
                let p = decoded_packet(ALICE, BOB, hop_start, hop_limit);
                let normal = hop_limit_for_response(&p, configured, false);
                let event = hop_limit_for_response(&p, configured, true);
                assert!(normal <= configured || normal <= HOP_MAX);
                assert!(event <= configured);
                if configured <= HOP_MAX {
                    assert!(normal <= HOP_MAX && event <= HOP_MAX);
                }
            }
        }
    }
}

#[test]
fn errors_have_numbers() {
    for err in [RoutingError::NoError, RoutingError::NoRoute] {
        let p = alloc_ack_nak(err, ALICE, 7, 0, 3);
        let Some(PayloadVariant::Decoded(d)) = p.payload_variant else { panic!() };
        let routing = decode::<Routing>(&d.payload).unwrap();
        assert_eq!(routing.variant, Some(RoutingVariant::ErrorReason(err.number())));
    }
    assert_eq!(RoutingError::NoError.number(), 0);
    assert_eq!(RoutingError::NoRoute.number(), 1);
}
