//! Stored configuration in files.

use meshtastic::config::{ConfigError, ConfigKind};
use meshtastic::files::{read_outcome, remove_outcome, replacement};
use std::io::{Error, ErrorKind};

fn missing() -> Error {
    Error::new(ErrorKind::NotFound, "gone")
}

fn denied() -> Error {
    Error::new(ErrorKind::PermissionDenied, "denied")
}

#[test]
fn file_names() {
    assert_eq!(ConfigKind::DeviceState.file_name(), "device.proto");
    assert_eq!(ConfigKind::NodeDatabase.file_name(), "nodes.proto");
    assert_eq!(ConfigKind::LocalConfig.file_name(), "config.proto");
    assert_eq!(ConfigKind::LocalModuleConfig.file_name(), "module.proto");
    assert_eq!(ConfigKind::ChannelFile.file_name(), "channels.proto");
    assert_eq!(ConfigKind::DeviceUiConfig.file_name(), "uiconfig.proto");
    assert_eq!(ConfigKind::DeviceUiConfig.file_stem(), "uiconfig");
}

#[test]
fn file_is_replaced_by_way_of_a_temporary_one() {
    let plan = replacement(ConfigKind::ChannelFile);
    assert_eq!(plan.write_to, "channels.proto.tmp");
    assert_eq!(plan.rename_to, "channels.proto");
}

#[test]
fn no_temporary_file_is_the_file_of_a_kind() {
    for a in ConfigKind::ALL {
        for b in ConfigKind::ALL {
            assert_ne!(replacement(a).write_to, b.file_name());
            assert_eq!(a.file_name() == b.file_name(), a == b);
        }
    }
}

#[test]
fn missing_file_holds_nothing() {
    assert_eq!(read_outcome(Ok(vec![1, 2]), false).unwrap(), Some(vec![1, 2]));
    assert_eq!(read_outcome(Err(missing()), true).unwrap(), None);
    match read_outcome(Err(denied()), false) {
        Err(ConfigError::Io(e)) => assert_eq!(e.kind(), ErrorKind::PermissionDenied),
        other => panic!("{:?}", other),
    }
}

#[test]
fn missing_file_is_as_good_as_removed() {
    assert!(remove_outcome(Ok(()), false).is_ok());
    assert!(remove_outcome(Err(missing()), true).is_ok());
    assert!(matches!(remove_outcome(Err(denied()), false), Err(ConfigError::Io(_))));
}
