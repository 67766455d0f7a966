//! Stored configuration.

use meshtastic::config::{
    decode, encode, stamp_current_version, version_of, ConfigError, ConfigKind, ConfigStore,
    MemoryConfigStore, DEVICESTATE_CUR_VER, DEVICESTATE_MIN_VER,
};
use meshtastic::message::Message;
use meshtastic::proto::channel::{Channel, ChannelFile};
use meshtastic::proto::config::Section;
use meshtastic::proto::node::{NodeDatabase, NodeInfoLite};
use meshtastic::proto::stored::{DeviceState, LocalConfig, LocalModuleConfig};
use meshtastic::wire::{Field, WireValue};

fn section(tag: u32) -> Field {
    Field { tag, value: WireValue::Bytes(Vec::new()) }
}

fn holds(config: &LocalConfig, tag: u32) -> bool {
    config.rest.iter().any(|f| f.tag == tag)
}

fn make_local_config() -> LocalConfig {
    LocalConfig { version: 0, rest: vec![section(1), section(6)] }
}

fn make_channel_file() -> ChannelFile {
    ChannelFile {
        channels: vec![Channel::default(), Channel::default()],
        version: 0,
    }
}

fn make_node_db() -> NodeDatabase {
    NodeDatabase {
        nodes: vec![NodeInfoLite {
            num: 0x1111,
            ..Default::default()
        }],
        version: 0,
    }
}

#[test]
fn config_kind_paths_match_firmware() {
    assert_eq!(ConfigKind::DeviceState.firmware_filename(), "/prefs/device.proto");
    assert_eq!(ConfigKind::NodeDatabase.firmware_filename(), "/prefs/nodes.proto");
    assert_eq!(ConfigKind::LocalConfig.firmware_filename(), "/prefs/config.proto");
    assert_eq!(ConfigKind::LocalModuleConfig.firmware_filename(), "/prefs/module.proto");
    assert_eq!(ConfigKind::ChannelFile.firmware_filename(), "/prefs/channels.proto");
    assert_eq!(ConfigKind::DeviceUiConfig.firmware_filename(), "/prefs/uiconfig.proto");
}

#[test]
fn memory_store_round_trips() {
    let mut store = MemoryConfigStore::new();
    let cfg = make_local_config();
    store.save(ConfigKind::LocalConfig, &cfg.encode_to_vec()).unwrap();
    let loaded = store.load(ConfigKind::LocalConfig).unwrap().unwrap();
    let decoded = decode::<LocalConfig>(&loaded).unwrap();
    assert!(holds(&decoded, 1));
    assert!(holds(&decoded, 6));
}

#[test]
fn missing_blob_loads_as_none() {
    let store = MemoryConfigStore::new();
    for kind in ConfigKind::ALL {
        assert!(store.load(kind).unwrap().is_none(), "{kind:?} must be empty");
    }
}

#[test]
fn delete_clears_slot() {
    let mut store = MemoryConfigStore::new();
    store.save(ConfigKind::ChannelFile, b"placeholder").unwrap();
    assert!(store.load(ConfigKind::ChannelFile).unwrap().is_some());
    store.delete(ConfigKind::ChannelFile).unwrap();
    assert!(store.load(ConfigKind::ChannelFile).unwrap().is_none());
}

#[test]
fn save_versioned_stamps_current_version() {
    let mut store = MemoryConfigStore::new();
    let raw = make_channel_file().encode_to_vec();
    assert_eq!(decode::<ChannelFile>(&raw).unwrap().version, 0);

    store.save_versioned(ConfigKind::ChannelFile, &raw).unwrap();
    let bytes = store.load(ConfigKind::ChannelFile).unwrap().unwrap();
    let decoded = decode::<ChannelFile>(&bytes).unwrap();
    assert_eq!(decoded.version, DEVICESTATE_CUR_VER);
}

#[test]
fn version_of_reads_each_kind() {
    let cases: &[(ConfigKind, Vec<u8>)] = &[
        (
            ConfigKind::DeviceState,
            DeviceState {
                version: DEVICESTATE_CUR_VER,
                ..Default::default()
            }
            .encode_to_vec(),
        ),
        (
            ConfigKind::NodeDatabase,
            NodeDatabase {
                version: DEVICESTATE_CUR_VER,
                ..Default::default()
            }
            .encode_to_vec(),
        ),
        (
            ConfigKind::LocalConfig,
            LocalConfig {
                version: DEVICESTATE_CUR_VER,
                ..Default::default()
            }
            .encode_to_vec(),
        ),
        (
            ConfigKind::LocalModuleConfig,
            LocalModuleConfig {
                version: DEVICESTATE_CUR_VER,
                ..Default::default()
            }
            .encode_to_vec(),
        ),
        (
            ConfigKind::ChannelFile,
            ChannelFile {
                version: DEVICESTATE_CUR_VER,
                ..Default::default()
            }
            .encode_to_vec(),
        ),
    ];
    for (kind, bytes) in cases {
        assert_eq!(version_of(*kind, bytes).unwrap(), DEVICESTATE_CUR_VER);
    }
}

#[test]
fn version_of_rejects_unversioned_kind() {
    let bytes: Vec<u8> = Vec::new();
    let err = version_of(ConfigKind::DeviceUiConfig, &bytes).unwrap_err();
    assert!(matches!(err, ConfigError::NoVersionField { .. }));
}

#[test]
fn load_versioned_returns_too_old() {
    let mut store = MemoryConfigStore::new();
    let raw = LocalConfig {
        version: DEVICESTATE_MIN_VER - 1,
        ..Default::default()
    }
    .encode_to_vec();
    store.save(ConfigKind::LocalConfig, &raw).unwrap();
    let err = store.load_versioned(ConfigKind::LocalConfig).unwrap_err();
    assert!(matches!(
        err,
        ConfigError::VersionTooOld {
            kind: ConfigKind::LocalConfig,
            ..
        }
    ));
}

#[test]
fn load_versioned_accepts_current_version() {
    let mut store = MemoryConfigStore::new();
    store
        .save_versioned(ConfigKind::NodeDatabase, &make_node_db().encode_to_vec())
        .unwrap();
    let loaded = store.load_versioned(ConfigKind::NodeDatabase).unwrap();
    assert!(loaded.is_some());
}

#[test]
fn save_versioned_rejects_unversioned_kind() {
    let mut store = MemoryConfigStore::new();
    let bytes: Vec<u8> = Vec::new();
    let err = store.save_versioned(ConfigKind::DeviceUiConfig, &bytes).unwrap_err();
    assert!(matches!(err, ConfigError::NoVersionField { .. }));
}

#[test]
fn typed_helpers_round_trip() {
    let cfg = LocalConfig { rest: vec![section(1)], ..Default::default() };
    let bytes = encode(&cfg);
    let decoded: LocalConfig = decode(&bytes).unwrap();
    assert!(holds(&decoded, 1));
}

#[test]
fn config_payload_variant_round_trips_through_local_config() {
    let _ = Section { number: 1, body: Vec::new() };
    let _ = make_local_config();
}

#[test]
fn malformed_section_is_refused() {
    let bad: &[&[u8]] = &[
        &[0x0a, 0x01, 0xff],
        &[0x0a, 0x02, 0x0a, 0x00],
        &[0x08, 0x01],
        &[0x22, 0x03, 0x1a, 0x01, 0xff],
        &[0x22, 0x04, 0x42, 0x02, 0x08, 0x01],
    ];
    for bytes in bad {
        let err = version_of(ConfigKind::LocalConfig, bytes).unwrap_err();
        assert!(matches!(err, ConfigError::Decode(_)));
        let err = stamp_current_version(ConfigKind::LocalConfig, bytes).unwrap_err();
        assert!(matches!(err, ConfigError::Decode(_)));
    }
    assert!(version_of(ConfigKind::DeviceState, &[0x1a, 0x02, 0x08, 0x01]).is_err());
    assert!(version_of(ConfigKind::LocalModuleConfig, &[0x0a, 0x02, 0x10, 0x01]).is_err());
}

#[test]
fn stamping_drops_what_is_unknown() {
    let bytes = [0x0a, 0x05, 0x08, 0x02, 0xa0, 0x06, 0x07, 0x40, 0x03, 0xa0, 0x06, 0x09];
    let stamped = stamp_current_version(ConfigKind::LocalConfig, &bytes).unwrap();
    assert_eq!(stamped, vec![0x0a, 0x02, 0x08, 0x02, 0x40, DEVICESTATE_CUR_VER as u8]);
    assert_eq!(version_of(ConfigKind::LocalConfig, &stamped).unwrap(), DEVICESTATE_CUR_VER);
    assert_eq!(stamp_current_version(ConfigKind::LocalConfig, &stamped).unwrap(), stamped);
}

#[test]
fn packed_and_unpacked_lists_are_read() {
    for bytes in [
        vec![0x32, 0x05, 0xba, 0x06, 0x02, 0x01, 0x02],
        vec![0x32, 0x03, 0xb8, 0x06, 0x01],
    ] {
        assert!(version_of(ConfigKind::LocalConfig, &bytes).is_ok());
    }
    let cut = [0x32, 0x04, 0xba, 0x06, 0x01, 0x80];
    assert!(version_of(ConfigKind::LocalConfig, &cut).is_err());
}

#[test]
fn decode_error_becomes_a_config_error() {
    let e = prost::encoding::decode_varint(&mut &[0xffu8][..]).unwrap_err();
    match ConfigError::from(e.clone()) {
        ConfigError::Decode(cause) => assert_eq!(cause, e),
        other => panic!("{other:?}"),
    }
}
