//! Errors in words.

use meshtastic::channels::{Channels, ChannelsError};
use meshtastic::config::{
    check_version, decode, stamp_current_version, version_of, ConfigError, ConfigKind,
};
use meshtastic::crypto::{decrypt_packet, ChannelKey, CryptoError};
use meshtastic::nodedb::NodeDbError;
use meshtastic::packet::{encrypt, PacketError};
use meshtastic::phone_api::PhoneApiError;
use meshtastic::proto::channel::{Channel, ChannelFile, ChannelSettings, Role};
use meshtastic::proto::packet::{Data, MeshPacket, PayloadVariant};

#[test]
fn crypto_errors() {
    assert_eq!(
        CryptoError::InvalidKeyLength(15).describe(),
        "invalid AES key length: 15 (expected 16 or 32)"
    );
    assert_eq!(
        CryptoError::PayloadTooLarge(300).describe(),
        "packet payload 300 exceeds MAX_PACKET_PAYLOAD=256"
    );
}

#[test]
fn decryption_refuses_what_encryption_refuses() {
    assert_eq!(decrypt_packet(&[0; 17], 0, 0, &mut [1]), Err(CryptoError::InvalidKeyLength(17)));
    let mut long = vec![7; 257];
    assert_eq!(decrypt_packet(&[0; 16], 0, 0, &mut long), Err(CryptoError::PayloadTooLarge(257)));
    assert_eq!(decrypt_packet(&[0; 17], 0, 0, &mut long), Err(CryptoError::PayloadTooLarge(257)));
    assert_eq!(long, vec![7; 257]);
}

#[test]
fn key_of_a_wrong_size() {
    assert_eq!(
        ChannelKey::from_expanded(&[0; 8]).err(),
        Some(CryptoError::InvalidKeyLength(8))
    );
}

#[test]
fn key_is_not_shown() {
    let key = ChannelKey::from_expanded(&[0xd4; 32]).unwrap();
    assert_eq!(key.describe(), "ChannelKey(<32 bytes redacted>)");
    assert_eq!(key.clone().as_bytes(), &[0xd4; 32]);
}

#[test]
fn channels_errors() {
    assert_eq!(ChannelsError::TooManyChannels(9).describe(), "too many channels: 9 > 8");
    assert_eq!(ChannelsError::NoPrimaryChannel.describe(), "no PRIMARY channel in the table");
    assert_eq!(
        ChannelsError::MultiplePrimaryChannels.describe(),
        "multiple PRIMARY channels in the table"
    );
}

#[test]
fn packet_errors() {
    assert_eq!(PacketError::InvalidChannelIndex(8).describe(), "channel index 8 is out of range");
    assert_eq!(PacketError::ChannelUnencrypted(1).describe(), "channel 1 has no usable key");
    assert_eq!(PacketError::NotDecoded.describe(), "packet is not in Decoded(Data) state");
    assert_eq!(PacketError::NotEncrypted.describe(), "packet is not in Encrypted(bytes) state");
    assert_eq!(
        PacketError::NoMatchingChannel { hash: 0x0a }.describe(),
        "no channel matches hash 0x0a"
    );
    assert_eq!(
        PacketError::PayloadTooLarge(300).describe(),
        "serialised Data is 300 bytes, over MAX_PACKET_PAYLOAD=256"
    );
    assert_eq!(
        PacketError::Crypto(CryptoError::InvalidKeyLength(40)).describe(),
        "crypto error: invalid AES key length: 40 (expected 16 or 32)"
    );
    assert_eq!(
        PacketError::from(CryptoError::PayloadTooLarge(300)),
        PacketError::PayloadTooLarge(300)
    );
    assert_eq!(
        PacketError::from(CryptoError::InvalidKeyLength(40)),
        PacketError::Crypto(CryptoError::InvalidKeyLength(40))
    );
}

#[test]
fn key_that_is_too_long_is_refused_by_the_cipher() {
    let channels = Channels::from_channel_file(&ChannelFile {
        channels: vec![Channel {
            index: 0,
            role: Role::Primary.number(),
            settings: Some(ChannelSettings { psk: vec![5; 40], ..Default::default() }),
        }],
        version: 0,
    })
    .unwrap();
    let mut packet = MeshPacket {
        payload_variant: Some(PayloadVariant::Decoded(Data::default())),
        ..Default::default()
    };
    assert_eq!(
        encrypt(&channels, 0, &mut packet),
        Err(PacketError::Crypto(CryptoError::InvalidKeyLength(40)))
    );
}

#[test]
fn node_table_errors() {
    assert_eq!(
        NodeDbError::TooManyNodes { got: 5, max: 3 }.describe(),
        "node database has 5 nodes; capacity is 3"
    );
    assert_eq!(
        NodeDbError::DuplicateNode(0x0dea_dbee).describe(),
        "duplicate node num 0xdeadbee in database"
    );
    assert_eq!(NodeDbError::DuplicateNode(0).describe(), "duplicate node num 0x0 in database");
}

#[test]
fn phone_errors() {
    assert_eq!(
        PhoneApiError::FrameTooLarge { size: 513 }.describe(),
        "ToRadio frame too large: 513 > 512"
    );
    assert_eq!(
        PhoneApiError::EncodedTooLarge { size: 1000 }.describe(),
        "FromRadio encode too large: 1000 > 512"
    );
    let cause = prost::encoding::decode_varint(&mut &[0xffu8][..]).unwrap_err();
    let decode = PhoneApiError::Decode(cause.clone());
    assert_eq!(decode.describe(), format!("ToRadio decode failed: {cause}"));
    assert_eq!(decode.clone(), decode);
}

#[test]
fn config_errors() {
    let old = ConfigError::VersionTooOld { kind: ConfigKind::LocalConfig, found: 23, minimum: 24 };
    assert_eq!(old.describe(), "LocalConfig schema v23 is older than minimum v24");
    assert_eq!(
        ConfigError::NoVersionField { kind: ConfigKind::DeviceUiConfig }.describe(),
        "DeviceUiConfig has no `version` field"
    );
    let cause = prost::encoding::decode_varint(&mut &[0xffu8][..]).unwrap_err();
    assert_eq!(
        ConfigError::from(cause.clone()).describe(),
        format!("config decode failed: {cause}")
    );
    let io = ConfigError::from(std::io::Error::new(std::io::ErrorKind::Other, "disk on fire"));
    assert_eq!(io.describe(), "config I/O error: disk on fire");
}

#[test]
fn malformed_configuration() {
    for kind in [
        ConfigKind::DeviceState,
        ConfigKind::NodeDatabase,
        ConfigKind::LocalConfig,
        ConfigKind::LocalModuleConfig,
        ConfigKind::ChannelFile,
    ] {
        assert!(matches!(version_of(kind, &[0xff]), Err(ConfigError::Decode(_))));
        assert!(matches!(stamp_current_version(kind, &[0xff]), Err(ConfigError::Decode(_))));
        assert!(matches!(check_version(kind, Some(vec![0xff])), Err(ConfigError::Decode(_))));
    }
    assert!(matches!(decode::<ChannelFile>(&[0xff]), Err(ConfigError::Decode(_))));
    assert!(matches!(
        check_version(ConfigKind::DeviceUiConfig, Some(vec![])),
        Err(ConfigError::NoVersionField { kind: ConfigKind::DeviceUiConfig })
    ));
    assert!(matches!(check_version(ConfigKind::ChannelFile, None), Ok(None)));
}

#[test]
fn malformed_bytes_in_words() {
    let words = |bytes: &[u8]| version_of(ConfigKind::LocalConfig, bytes).unwrap_err().describe();
    let start = "config decode failed: failed to decode Protobuf message: ";
    assert_eq!(words(&[0xff]), format!("{start}invalid varint"));
    assert_eq!(words(&[0x00, 0x00]), format!("{start}invalid tag value: 0"));
    assert_eq!(words(&[0x0e]), format!("{start}invalid wire type value: 6"));
    assert_eq!(words(&[0x0d, 0x00]), format!("{start}buffer underflow"));
    assert_eq!(words(&[0x0a, 0x02, 0x00]), format!("{start}buffer underflow"));
    assert_eq!(
        words(&[0x80, 0x80, 0x80, 0x80, 0x10, 0x00]),
        format!("{start}invalid key value: 4294967296")
    );
}
