//! Persistent configuration.
//!
//! Six kinds of messages are stored as bytes. Five of them carry the version of
//! the storage format, which is set when they are saved and checked when they
//! are loaded.

use crate::message::{self, Message, RoundTrip};
use crate::proto::channel::{ChannelFile, ChannelFileOf};
use crate::proto::node::{NodeDatabase, NodeDatabaseOf};
use crate::proto::stored::{DeviceState, EnvelopeOf, LocalConfig, LocalModuleConfig};
use crate::text;
use crate::wire::{self, decode_error_text};
use vstd::prelude::*;
use vstd::string::StringExecFns;

verus! {

/// The version that messages are stored with.
pub const DEVICESTATE_CUR_VER: u32 = 24;

/// The oldest version that is loaded.
pub const DEVICESTATE_MIN_VER: u32 = 24;

/// A kind of stored message.
#[derive(Debug, Clone, Copy, PartialEq, Eq, Hash, Structural)]
pub enum ConfigKind {
    /// The state of the device.
    DeviceState,
    /// The table of known nodes.
    NodeDatabase,
    /// The configuration of the device.
    LocalConfig,
    /// The configuration of the modules.
    LocalModuleConfig,
    /// The channel table.
    ChannelFile,
    /// The user interface.
    DeviceUiConfig,
}

impl ConfigKind {
    /// Every kind.
    pub const ALL: [ConfigKind; 6] = [
        ConfigKind::DeviceState,
        ConfigKind::NodeDatabase,
        ConfigKind::LocalConfig,
        ConfigKind::LocalModuleConfig,
        ConfigKind::ChannelFile,
        ConfigKind::DeviceUiConfig,
    ];

    /// The name of the kind.
    pub open spec fn text(self) -> Seq<char> {
        match self {
            ConfigKind::DeviceState => "DeviceState"@,
            ConfigKind::NodeDatabase => "NodeDatabase"@,
            ConfigKind::LocalConfig => "LocalConfig"@,
            ConfigKind::LocalModuleConfig => "LocalModuleConfig"@,
            ConfigKind::ChannelFile => "ChannelFile"@,
            ConfigKind::DeviceUiConfig => "DeviceUiConfig"@,
        }
    }

    fn name(self) -> (r: &'static str)
        ensures
            r@ == self.text(),
    {
        match self {
            ConfigKind::DeviceState => "DeviceState",
            ConfigKind::NodeDatabase => "NodeDatabase",
            ConfigKind::LocalConfig => "LocalConfig",
            ConfigKind::LocalModuleConfig => "LocalModuleConfig",
            ConfigKind::ChannelFile => "ChannelFile",
            ConfigKind::DeviceUiConfig => "DeviceUiConfig",
        }
    }

    /// The path of the file on the device.
    pub fn firmware_filename(self) -> (r: &'static str)
        ensures
            r@ == match self {
                ConfigKind::DeviceState => "/prefs/device.proto"@,
                ConfigKind::NodeDatabase => "/prefs/nodes.proto"@,
                ConfigKind::LocalConfig => "/prefs/config.proto"@,
                ConfigKind::LocalModuleConfig => "/prefs/module.proto"@,
                ConfigKind::ChannelFile => "/prefs/channels.proto"@,
                ConfigKind::DeviceUiConfig => "/prefs/uiconfig.proto"@,
            },
    {
        match self {
            ConfigKind::DeviceState => "/prefs/device.proto",
            ConfigKind::NodeDatabase => "/prefs/nodes.proto",
            ConfigKind::LocalConfig => "/prefs/config.proto",
            ConfigKind::LocalModuleConfig => "/prefs/module.proto",
            ConfigKind::ChannelFile => "/prefs/channels.proto",
            ConfigKind::DeviceUiConfig => "/prefs/uiconfig.proto",
        }
    }

    /// The name of the file, without directory and extension.
    pub open spec fn stem(self) -> Seq<char> {
        match self {
            ConfigKind::DeviceState => "device"@,
            ConfigKind::NodeDatabase => "nodes"@,
            ConfigKind::LocalConfig => "config"@,
            ConfigKind::LocalModuleConfig => "module"@,
            ConfigKind::ChannelFile => "channels"@,
            ConfigKind::DeviceUiConfig => "uiconfig"@,
        }
    }

    /// The name of the file, without directory and extension.
    pub fn file_stem(self) -> (r: &'static str)
        ensures
            r@ == self.stem(),
    {
        match self {
            ConfigKind::DeviceState => "device",
            ConfigKind::NodeDatabase => "nodes",
            ConfigKind::LocalConfig => "config",
            ConfigKind::LocalModuleConfig => "module",
            ConfigKind::ChannelFile => "channels",
            ConfigKind::DeviceUiConfig => "uiconfig",
        }
    }
}

/// The error of an input or output operation, `std::io::Error`. Nothing inside
/// it is read.
#[verifier::external_type_specification]
#[verifier::external_body]
pub struct ExIoError(std::io::Error);

/// Why a message was not stored or loaded.
#[derive(Debug)]
pub enum ConfigError {
    /// The bytes do not decode.
    Decode(prost::DecodeError),
    /// The version is below [`DEVICESTATE_MIN_VER`].
    VersionTooOld { kind: ConfigKind, found: u32, minimum: u32 },
    /// Messages of this kind carry no version.
    NoVersionField { kind: ConfigKind },
    /// The backend failed.
    Io(std::io::Error),
}

/// Calls `ToString::to_string` on a `std::io::Error`: the error in words. Nothing
/// is claimed of them.
#[verifier::external_body]
fn io_error_text(e: &std::io::Error) -> (r: String) {
    e.to_string()
}

impl ConfigError {
    /// The error in words; those on a failed backend stop where its own begin.
    pub open spec fn text(self) -> Seq<char> {
        match self {
            ConfigError::Decode(e) => "config decode failed: "@ + wire::decode_error_words(e),
            ConfigError::VersionTooOld { kind, found, minimum } => kind.text() + " schema v"@
                + text::decimal(found as nat) + " is older than minimum v"@ + text::decimal(
                minimum as nat,
            ),
            ConfigError::NoVersionField { kind } => kind.text() + " has no `version` field"@,
            ConfigError::Io(_) => "config I/O error: "@,
        }
    }

    /// The error in words.
    pub fn describe(&self) -> (r: String)
        ensures
            self is Io ==> self.text().is_prefix_of(r@),
            !(self is Io) ==> r@ == self.text(),
    {
        match self {
            ConfigError::Decode(e) => {
                let mut r = String::from_str("config decode failed: ");
                let cause = decode_error_text(e);
                r.append(cause.as_str());
                r
            },
            ConfigError::VersionTooOld { kind, found, minimum } => {
                let mut r = String::from_str(kind.name());
                let number = text::number_between(
                    " schema v",
                    *found as u64,
                    " is older than minimum v",
                );
                r.append(number.as_str());
                let number = text::decimal_string(*minimum as u64);
                r.append(number.as_str());
                assert(r@ =~= self.text());
                r
            },
            ConfigError::NoVersionField { kind } => {
                let mut r = String::from_str(kind.name());
                r.append(" has no `version` field");
                r
            },
            ConfigError::Io(e) => {
                let mut r = String::from_str("config I/O error: ");
                let cause = io_error_text(e);
                r.append(cause.as_str());
                r
            },
        }
    }
}

impl From<std::io::Error> for ConfigError {
    fn from(e: std::io::Error) -> (r: ConfigError) {
        ConfigError::Io(e)
    }
}

impl From<prost::DecodeError> for ConfigError {
    fn from(e: prost::DecodeError) -> (r: ConfigError) {
        ConfigError::Decode(e)
    }
}

impl vstd::std_specs::convert::FromSpecImpl<prost::DecodeError> for ConfigError {
    open spec fn obeys_from_spec() -> bool {
        true
    }

    open spec fn from_spec(e: prost::DecodeError) -> ConfigError {
        ConfigError::Decode(e)
    }
}

impl vstd::std_specs::convert::FromSpecImpl<std::io::Error> for ConfigError {
    open spec fn obeys_from_spec() -> bool {
        true
    }

    open spec fn from_spec(e: std::io::Error) -> ConfigError {
        ConfigError::Io(e)
    }
}

// ---------------------------------------------------------------------------
// Versions
// ---------------------------------------------------------------------------

/// Whether messages of a kind carry a version.
pub open spec fn is_versioned(kind: ConfigKind) -> bool {
    kind != ConfigKind::DeviceUiConfig
}

/// The version in a stored message, if it decodes.
pub open spec fn stored_version(kind: ConfigKind, blob: Seq<u8>) -> Option<u32> {
    match kind {
        ConfigKind::NodeDatabase => match message::decoded::<NodeDatabase>(blob) {
            Some(m) => Some(m.version),
            None => None,
        },
        ConfigKind::ChannelFile => match message::decoded::<ChannelFile>(blob) {
            Some(m) => Some(m.version),
            None => None,
        },
        ConfigKind::DeviceUiConfig => None,
        ConfigKind::DeviceState => match message::decoded::<DeviceState>(blob) {
            Some(m) => Some(m.version),
            None => None,
        },
        ConfigKind::LocalConfig => match message::decoded::<LocalConfig>(blob) {
            Some(m) => Some(m.version),
            None => None,
        },
        ConfigKind::LocalModuleConfig => match message::decoded::<LocalModuleConfig>(blob) {
            Some(m) => Some(m.version),
            None => None,
        },
    }
}

/// A stored message with its version set to the current one, if it decodes.
pub open spec fn stamped(kind: ConfigKind, blob: Seq<u8>) -> Option<Seq<u8>> {
    match kind {
        ConfigKind::NodeDatabase => match message::decoded::<NodeDatabase>(blob) {
            Some(m) => Some(
                message::encoded::<NodeDatabase>(
                    NodeDatabaseOf { version: DEVICESTATE_CUR_VER, ..m },
                ),
            ),
            None => None,
        },
        ConfigKind::ChannelFile => match message::decoded::<ChannelFile>(blob) {
            Some(m) => Some(
                message::encoded::<ChannelFile>(
                    ChannelFileOf { version: DEVICESTATE_CUR_VER, ..m },
                ),
            ),
            None => None,
        },
        ConfigKind::DeviceUiConfig => None,
        ConfigKind::DeviceState => match message::decoded::<DeviceState>(blob) {
            Some(m) => Some(
                message::encoded::<DeviceState>(EnvelopeOf { version: DEVICESTATE_CUR_VER, ..m }),
            ),
            None => None,
        },
        ConfigKind::LocalConfig => match message::decoded::<LocalConfig>(blob) {
            Some(m) => Some(
                message::encoded::<LocalConfig>(EnvelopeOf { version: DEVICESTATE_CUR_VER, ..m }),
            ),
            None => None,
        },
        ConfigKind::LocalModuleConfig => match message::decoded::<LocalModuleConfig>(blob) {
            Some(m) => Some(
                message::encoded::<LocalModuleConfig>(
                    EnvelopeOf { version: DEVICESTATE_CUR_VER, ..m },
                ),
            ),
            None => None,
        },
    }
}

/// The version in a stored message.
pub fn version_of(kind: ConfigKind, blob: &[u8]) -> (r: Result<u32, ConfigError>)
    ensures
        match r {
            Ok(v) => stored_version(kind, blob@) == Some(v),
            Err(ConfigError::NoVersionField { kind: k }) => k == kind && !is_versioned(kind),
            Err(ConfigError::Decode(_)) => is_versioned(kind) && stored_version(kind, blob@)
                is None,
            Err(_) => false,
        },
{
    match kind {
        ConfigKind::NodeDatabase => match message::decode::<NodeDatabase>(blob) {
            Ok(m) => Ok(m.version),
            Err(e) => Err(ConfigError::Decode(e)),
        },
        ConfigKind::ChannelFile => match message::decode::<ChannelFile>(blob) {
            Ok(m) => Ok(m.version),
            Err(e) => Err(ConfigError::Decode(e)),
        },
        ConfigKind::DeviceUiConfig => Err(ConfigError::NoVersionField { kind }),
        ConfigKind::DeviceState => match message::decode::<DeviceState>(blob) {
            Ok(m) => Ok(m.version),
            Err(e) => Err(ConfigError::Decode(e)),
        },
        ConfigKind::LocalConfig => match message::decode::<LocalConfig>(blob) {
            Ok(m) => Ok(m.version),
            Err(e) => Err(ConfigError::Decode(e)),
        },
        ConfigKind::LocalModuleConfig => match message::decode::<LocalModuleConfig>(blob) {
            Ok(m) => Ok(m.version),
            Err(e) => Err(ConfigError::Decode(e)),
        },
    }
}

/// A stored message with its version set to the current one. Fields that the
/// message does not know are left out, and the others are written in order.
pub fn stamp_current_version(kind: ConfigKind, bytes: &[u8]) -> (r: Result<Vec<u8>, ConfigError>)
    ensures
        match r {
            Ok(b) => stamped(kind, bytes@) == Some(b@),
            Err(ConfigError::NoVersionField { kind: k }) => k == kind && !is_versioned(kind),
            Err(ConfigError::Decode(_)) => is_versioned(kind) && stamped(kind, bytes@) is None,
            Err(_) => false,
        },
{
    match kind {
        ConfigKind::NodeDatabase => match message::decode::<NodeDatabase>(bytes) {
            Ok(mut m) => {
                m.version = DEVICESTATE_CUR_VER;
                Ok(m.encode_to_vec())
            },
            Err(e) => Err(ConfigError::Decode(e)),
        },
        ConfigKind::ChannelFile => match message::decode::<ChannelFile>(bytes) {
            Ok(mut m) => {
                m.version = DEVICESTATE_CUR_VER;
                Ok(m.encode_to_vec())
            },
            Err(e) => Err(ConfigError::Decode(e)),
        },
        ConfigKind::DeviceUiConfig => Err(ConfigError::NoVersionField { kind }),
        ConfigKind::DeviceState => match message::decode::<DeviceState>(bytes) {
            Ok(mut m) => {
                m.version = DEVICESTATE_CUR_VER;
                Ok(m.encode_to_vec())
            },
            Err(e) => Err(ConfigError::Decode(e)),
        },
        ConfigKind::LocalConfig => match message::decode::<LocalConfig>(bytes) {
            Ok(mut m) => {
                m.version = DEVICESTATE_CUR_VER;
                Ok(m.encode_to_vec())
            },
            Err(e) => Err(ConfigError::Decode(e)),
        },
        ConfigKind::LocalModuleConfig => match message::decode::<LocalModuleConfig>(bytes) {
            Ok(mut m) => {
                m.version = DEVICESTATE_CUR_VER;
                Ok(m.encode_to_vec())
            },
            Err(e) => Err(ConfigError::Decode(e)),
        },
    }
}

/// The bytes that a message is stored as.
pub fn encode<M: Message>(msg: &M) -> (r: Vec<u8>)
    ensures
        r@ == message::encoded::<M>(msg@),
{
    msg.encode_to_vec()
}

/// Reads a stored message.
pub fn decode<M: Message>(bytes: &[u8]) -> (r: Result<M, ConfigError>)
    ensures
        match r {
            Ok(m) => message::decoded::<M>(bytes@) == Some(m@),
            Err(ConfigError::Decode(_)) => message::decoded::<M>(bytes@) is None,
            Err(_) => false,
        },
{
    match message::decode::<M>(bytes) {
        Ok(m) => Ok(m),
        Err(e) => Err(ConfigError::Decode(e)),
    }
}

// ---------------------------------------------------------------------------
// Stores
// ---------------------------------------------------------------------------

/// Whether `r` is what a stored message is worth: a message that is not there
/// stays so, one whose version is readable and recent enough is accepted.
pub open spec fn is_checked(
    kind: ConfigKind,
    loaded: Option<Seq<u8>>,
    r: Result<Option<Vec<u8>>, ConfigError>,
) -> bool {
    match loaded {
        None => r matches Ok(None),
        Some(bytes) => match r {
            Ok(Some(b)) => b@ == bytes && (stored_version(kind, bytes) matches Some(v) && v
                >= DEVICESTATE_MIN_VER),
            Ok(None) => false,
            Err(ConfigError::VersionTooOld { kind: k, found, minimum }) => {
                &&& k == kind
                &&& minimum == DEVICESTATE_MIN_VER
                &&& stored_version(kind, bytes) == Some(found)
                &&& found < DEVICESTATE_MIN_VER
            },
            Err(ConfigError::NoVersionField { kind: k }) => k == kind && !is_versioned(kind),
            Err(ConfigError::Decode(_)) => is_versioned(kind) && stored_version(kind, bytes)
                is None,
            Err(ConfigError::Io(_)) => false,
        },
    }
}

/// Checks the version of a stored message that was loaded.
pub fn check_version(kind: ConfigKind, loaded: Option<Vec<u8>>) -> (r: Result<
    Option<Vec<u8>>,
    ConfigError,
>)
    ensures
        is_checked(kind, message::opt_view(loaded), r),
{
    match loaded {
        None => Ok(None),
        Some(bytes) => match version_of(kind, &bytes) {
            Ok(v) => if v < DEVICESTATE_MIN_VER {
                Err(
                    ConfigError::VersionTooOld { kind, found: v, minimum: DEVICESTATE_MIN_VER },
                )
            } else {
                Ok(Some(bytes))
            },
            Err(e) => Err(e),
        },
    }
}

/// A backend that stores messages as bytes.
///
/// What becomes of a call is the backend's own. The methods that deal with
/// versions go by the spec functions, which tell what the backend was asked.
pub trait ConfigStore {
    /// What the store holds of each kind.
    open spec fn contents(&self) -> Map<ConfigKind, Option<Seq<u8>>> {
        Map::empty()
    }

    /// Whether loading a message of a kind may come to this.
    open spec fn may_load(
        &self,
        kind: ConfigKind,
        r: Result<Option<Vec<u8>>, ConfigError>,
    ) -> bool {
        true
    }

    /// Whether storing a message may come to this result and these contents.
    open spec fn may_save(
        &self,
        kind: ConfigKind,
        bytes: Seq<u8>,
        r: Result<(), ConfigError>,
        after: Map<ConfigKind, Option<Seq<u8>>>,
    ) -> bool {
        true
    }

    /// Whether deleting a message of a kind may come to this result and these
    /// contents.
    open spec fn may_delete(
        &self,
        kind: ConfigKind,
        r: Result<(), ConfigError>,
        after: Map<ConfigKind, Option<Seq<u8>>>,
    ) -> bool {
        true
    }

    /// Loads a message, `None` if there is none of the kind.
    fn load(&self, kind: ConfigKind) -> (r: Result<Option<Vec<u8>>, ConfigError>)
        ensures
            self.may_load(kind, r),
    ;

    /// Stores a message in place of the one of the same kind.
    fn save(&mut self, kind: ConfigKind, bytes: &[u8]) -> (r: Result<(), ConfigError>)
        ensures
            (*old(self)).may_save(kind, bytes@, r, final(self).contents()),
    ;

    /// Deletes a message, if there is one of the kind.
    fn delete(&mut self, kind: ConfigKind) -> (r: Result<(), ConfigError>)
        ensures
            (*old(self)).may_delete(kind, r, final(self).contents()),
    ;

    /// Loads a message and checks its version.
    fn load_versioned(&self, kind: ConfigKind) -> (r: Result<Option<Vec<u8>>, ConfigError>)
        ensures
            exists|l: Result<Option<Vec<u8>>, ConfigError>| #[trigger]
                self.may_load(kind, l) && match l {
                    Ok(loaded) => is_checked(kind, message::opt_view(loaded), r),
                    Err(e) => r == Err::<Option<Vec<u8>>, _>(e),
                },
    {
        match self.load(kind) {
            Ok(loaded) => check_version(kind, loaded),
            Err(e) => Err(e),
        }
    }

    /// Stores a message under the current version.
    fn save_versioned(&mut self, kind: ConfigKind, bytes: &[u8]) -> (r: Result<(), ConfigError>)
        ensures
            stamped(kind, bytes@) matches Some(b) ==> (*old(self)).may_save(
                kind,
                b,
                r,
                final(self).contents(),
            ),
            stamped(kind, bytes@) is None ==> {
                &&& is_versioned(kind) ==> (r matches Err(ConfigError::Decode(_)))
                &&& !is_versioned(kind) ==> (r matches Err(
                    ConfigError::NoVersionField { kind: k },
                ) && k == kind)
                &&& final(self).contents() == old(self).contents()
            },
    {
        match stamp_current_version(kind, bytes) {
            Ok(b) => self.save(kind, &b),
            Err(e) => Err(e),
        }
    }
}

impl<S: ConfigStore + ?Sized> ConfigStore for Box<S> {
    open spec fn contents(&self) -> Map<ConfigKind, Option<Seq<u8>>> {
        (**self).contents()
    }

    open spec fn may_load(
        &self,
        kind: ConfigKind,
        r: Result<Option<Vec<u8>>, ConfigError>,
    ) -> bool {
        (**self).may_load(kind, r)
    }

    open spec fn may_save(
        &self,
        kind: ConfigKind,
        bytes: Seq<u8>,
        r: Result<(), ConfigError>,
        after: Map<ConfigKind, Option<Seq<u8>>>,
    ) -> bool {
        (**self).may_save(kind, bytes, r, after)
    }

    open spec fn may_delete(
        &self,
        kind: ConfigKind,
        r: Result<(), ConfigError>,
        after: Map<ConfigKind, Option<Seq<u8>>>,
    ) -> bool {
        (**self).may_delete(kind, r, after)
    }

    fn load(&self, kind: ConfigKind) -> Result<Option<Vec<u8>>, ConfigError> {
        (**self).load(kind)
    }

    fn save(&mut self, kind: ConfigKind, bytes: &[u8]) -> Result<(), ConfigError> {
        (**self).save(kind, bytes)
    }

    fn delete(&mut self, kind: ConfigKind) -> Result<(), ConfigError> {
        (**self).delete(kind)
    }
}

/// A store in memory.
#[derive(Debug)]
pub struct MemoryConfigStore {
    device_state: Option<Vec<u8>>,
    node_database: Option<Vec<u8>>,
    local_config: Option<Vec<u8>>,
    local_module_config: Option<Vec<u8>>,
    channel_file: Option<Vec<u8>>,
    device_ui_config: Option<Vec<u8>>,
}

impl View for MemoryConfigStore {
    type V = Map<ConfigKind, Option<Seq<u8>>>;

    closed spec fn view(&self) -> Map<ConfigKind, Option<Seq<u8>>> {
        Map::total(
            |kind: ConfigKind|
                message::opt_view(
                    match kind {
                        ConfigKind::DeviceState => self.device_state,
                        ConfigKind::NodeDatabase => self.node_database,
                        ConfigKind::LocalConfig => self.local_config,
                        ConfigKind::LocalModuleConfig => self.local_module_config,
                        ConfigKind::ChannelFile => self.channel_file,
                        ConfigKind::DeviceUiConfig => self.device_ui_config,
                    },
                ),
        )
    }
}

impl MemoryConfigStore {
    /// What the store holds of a kind.
    pub open spec fn holds(&self, kind: ConfigKind) -> Option<Seq<u8>> {
        self@[kind]
    }

    /// An empty store.
    pub fn new() -> (r: Self)
        ensures
            forall|kind: ConfigKind| #[trigger] r.holds(kind) is None,
    {
        MemoryConfigStore {
            device_state: None,
            node_database: None,
            local_config: None,
            local_module_config: None,
            channel_file: None,
            device_ui_config: None,
        }
    }

    fn slot(&self, kind: ConfigKind) -> (r: &Option<Vec<u8>>)
        ensures
            message::opt_view(*r) == self.holds(kind),
    {
        match kind {
            ConfigKind::DeviceState => &self.device_state,
            ConfigKind::NodeDatabase => &self.node_database,
            ConfigKind::LocalConfig => &self.local_config,
            ConfigKind::LocalModuleConfig => &self.local_module_config,
            ConfigKind::ChannelFile => &self.channel_file,
            ConfigKind::DeviceUiConfig => &self.device_ui_config,
        }
    }

    fn set_slot(&mut self, kind: ConfigKind, value: Option<Vec<u8>>)
        ensures
            final(self)@ == old(self)@.insert(kind, message::opt_view(value)),
    {
        match kind {
            ConfigKind::DeviceState => self.device_state = value,
            ConfigKind::NodeDatabase => self.node_database = value,
            ConfigKind::LocalConfig => self.local_config = value,
            ConfigKind::LocalModuleConfig => self.local_module_config = value,
            ConfigKind::ChannelFile => self.channel_file = value,
            ConfigKind::DeviceUiConfig => self.device_ui_config = value,
        }
        assert(self@ =~= old(self)@.insert(kind, message::opt_view(value)));
    }
}

impl Default for MemoryConfigStore {
    fn default() -> (r: Self)
        ensures
            forall|kind: ConfigKind| #[trigger] r.holds(kind) is None,
    {
        Self::new()
    }
}

fn copied(x: &Option<Vec<u8>>) -> (r: Option<Vec<u8>>)
    ensures
        message::opt_view(r) == message::opt_view(*x),
{
    match x {
        Some(b) => Some(b.clone()),
        None => None,
    }
}

impl Clone for MemoryConfigStore {
    fn clone(&self) -> (r: Self)
        ensures
            r@ == self@,
    {
        let r = MemoryConfigStore {
            device_state: copied(&self.device_state),
            node_database: copied(&self.node_database),
            local_config: copied(&self.local_config),
            local_module_config: copied(&self.local_module_config),
            channel_file: copied(&self.channel_file),
            device_ui_config: copied(&self.device_ui_config),
        };
        assert(r@ =~= self@);
        r
    }
}

impl ConfigStore for MemoryConfigStore {
    open spec fn contents(&self) -> Map<ConfigKind, Option<Seq<u8>>> {
        self@
    }

    open spec fn may_load(
        &self,
        kind: ConfigKind,
        r: Result<Option<Vec<u8>>, ConfigError>,
    ) -> bool {
        r matches Ok(b) && message::opt_view(b) == self.holds(kind)
    }

    open spec fn may_save(
        &self,
        kind: ConfigKind,
        bytes: Seq<u8>,
        r: Result<(), ConfigError>,
        after: Map<ConfigKind, Option<Seq<u8>>>,
    ) -> bool {
        r is Ok && after == self@.insert(kind, Some(bytes))
    }

    open spec fn may_delete(
        &self,
        kind: ConfigKind,
        r: Result<(), ConfigError>,
        after: Map<ConfigKind, Option<Seq<u8>>>,
    ) -> bool {
        r is Ok && after == self@.insert(kind, None)
    }

    fn load(&self, kind: ConfigKind) -> (r: Result<Option<Vec<u8>>, ConfigError>)
        ensures
            r matches Ok(b) && message::opt_view(b) == self.holds(kind),
    {
        Ok(copied(self.slot(kind)))
    }

    fn save(&mut self, kind: ConfigKind, bytes: &[u8]) -> (r: Result<(), ConfigError>)
        ensures
            r is Ok,
            final(self)@ == old(self)@.insert(kind, Some(bytes@)),
    {
        self.set_slot(kind, Some(vstd::slice::slice_to_vec(bytes)));
        Ok(())
    }

    fn delete(&mut self, kind: ConfigKind) -> (r: Result<(), ConfigError>)
        ensures
            r is Ok,
            final(self)@ == old(self)@.insert(kind, None),
    {
        self.set_slot(kind, None);
        Ok(())
    }

    fn load_versioned(&self, kind: ConfigKind) -> (r: Result<Option<Vec<u8>>, ConfigError>)
        ensures
            is_checked(kind, self.holds(kind), r),
    {
        match self.load(kind) {
            Ok(loaded) => check_version(kind, loaded),
            Err(e) => Err(e),
        }
    }

    fn save_versioned(&mut self, kind: ConfigKind, bytes: &[u8]) -> (r: Result<(), ConfigError>)
        ensures
            r is Ok <==> stamped(kind, bytes@) is Some,
            r is Ok ==> final(self)@ == old(self)@.insert(kind, stamped(kind, bytes@)),
            r is Err ==> final(self)@ == old(self)@,
    {
        match stamp_current_version(kind, bytes) {
            Ok(b) => self.save(kind, &b),
            Err(e) => Err(e),
        }
    }
}

// ---------------------------------------------------------------------------
// Laws
// ---------------------------------------------------------------------------

/// Stamping changes nothing but the version: what was stored reads back, up to the
/// sign of zero, as it was before with the current version.
pub proof fn lemma_stamped(kind: ConfigKind, blob: Seq<u8>)
    requires
        stamped(kind, blob) matches Some(b) ==> b.len() <= u64::MAX,
    ensures
        stamped(kind, blob) matches Some(b) ==> match kind {
            ConfigKind::NodeDatabase => message::decoded::<NodeDatabase>(b) == Some(
                NodeDatabase::settled(
                    NodeDatabaseOf {
                        version: DEVICESTATE_CUR_VER,
                        ..message::decoded::<NodeDatabase>(blob)->0
                    },
                ),
            ),
            ConfigKind::ChannelFile => message::decoded::<ChannelFile>(b) == Some(
                ChannelFile::settled(
                    ChannelFileOf {
                        version: DEVICESTATE_CUR_VER,
                        ..message::decoded::<ChannelFile>(blob)->0
                    },
                ),
            ),
            ConfigKind::DeviceState => message::decoded::<DeviceState>(b) == Some(
                EnvelopeOf {
                    version: DEVICESTATE_CUR_VER,
                    ..message::decoded::<DeviceState>(blob)->0
                },
            ),
            ConfigKind::LocalConfig => message::decoded::<LocalConfig>(b) == Some(
                EnvelopeOf {
                    version: DEVICESTATE_CUR_VER,
                    ..message::decoded::<LocalConfig>(blob)->0
                },
            ),
            ConfigKind::LocalModuleConfig => message::decoded::<LocalModuleConfig>(b) == Some(
                EnvelopeOf {
                    version: DEVICESTATE_CUR_VER,
                    ..message::decoded::<LocalModuleConfig>(blob)->0
                },
            ),
            ConfigKind::DeviceUiConfig => false,
        },
{
    if stamped(kind, blob) is Some {
        match kind {
            ConfigKind::NodeDatabase => {
                message::lemma_decoded::<NodeDatabase>(blob);
                let m = message::decoded::<NodeDatabase>(blob)->0;
                message::lemma_decode_of_settled::<NodeDatabase>(
                    NodeDatabaseOf { version: DEVICESTATE_CUR_VER, ..m },
                );
            },
            ConfigKind::ChannelFile => {
                message::lemma_decoded::<ChannelFile>(blob);
                let m = message::decoded::<ChannelFile>(blob)->0;
                message::lemma_decode_of_settled::<ChannelFile>(
                    ChannelFileOf { version: DEVICESTATE_CUR_VER, ..m },
                );
            },
            ConfigKind::DeviceState => {
                message::lemma_decoded::<DeviceState>(blob);
                let m = message::decoded::<DeviceState>(blob)->0;
                message::lemma_decode_of_settled::<DeviceState>(
                    EnvelopeOf { version: DEVICESTATE_CUR_VER, ..m },
                );
            },
            ConfigKind::LocalConfig => {
                message::lemma_decoded::<LocalConfig>(blob);
                let m = message::decoded::<LocalConfig>(blob)->0;
                message::lemma_decode_of_settled::<LocalConfig>(
                    EnvelopeOf { version: DEVICESTATE_CUR_VER, ..m },
                );
            },
            ConfigKind::LocalModuleConfig => {
                message::lemma_decoded::<LocalModuleConfig>(blob);
                let m = message::decoded::<LocalModuleConfig>(blob)->0;
                message::lemma_decode_of_settled::<LocalModuleConfig>(
                    EnvelopeOf { version: DEVICESTATE_CUR_VER, ..m },
                );
            },
            ConfigKind::DeviceUiConfig => {},
        }
    }
}

/// A message that was stamped carries the current version, so it is accepted when it
/// is loaded.
pub proof fn lemma_version_of_stamped(kind: ConfigKind, blob: Seq<u8>)
    requires
        stamped(kind, blob) matches Some(b) ==> b.len() <= u64::MAX,
    ensures
        stamped(kind, blob) matches Some(b) ==> stored_version(kind, b) == Some(
            DEVICESTATE_CUR_VER,
        ) && DEVICESTATE_CUR_VER >= DEVICESTATE_MIN_VER,
{
    lemma_stamped(kind, blob);
}

/// Stamping a message that was stamped changes nothing.
pub proof fn lemma_stamped_twice(kind: ConfigKind, blob: Seq<u8>)
    requires
        stamped(kind, blob) matches Some(b) ==> b.len() <= u64::MAX,
    ensures
        stamped(kind, blob) matches Some(b) ==> stamped(kind, b) == Some(b),
{
    lemma_stamped(kind, blob);
    if stamped(kind, blob) is Some {
        match kind {
            ConfigKind::NodeDatabase => {
                let m = NodeDatabaseOf {
                    version: DEVICESTATE_CUR_VER,
                    ..message::decoded::<NodeDatabase>(blob)->0
                };
                NodeDatabase::lemma_settled(m);
            },
            ConfigKind::ChannelFile => {
                let m = ChannelFileOf {
                    version: DEVICESTATE_CUR_VER,
                    ..message::decoded::<ChannelFile>(blob)->0
                };
                ChannelFile::lemma_settled(m);
            },
            _ => {},
        }
    }
}

/// Which messages are stamped: exactly those whose version can be read, which every kind
/// carries but that of the user interface.
pub proof fn lemma_stamped_if_readable(kind: ConfigKind, blob: Seq<u8>)
    ensures
        stamped(kind, blob) is Some <==> stored_version(kind, blob) is Some,
        kind == ConfigKind::DeviceUiConfig ==> stamped(kind, blob) is None && stored_version(
            kind,
            blob,
        ) is None && !is_versioned(kind),
        kind != ConfigKind::DeviceUiConfig ==> is_versioned(kind),
{
}

/// The version of a stored message is the number in the field for it, for each kind that
/// has one, and is unreadable exactly if the message does not decode.
pub proof fn lemma_stored_version(blob: Seq<u8>)
    ensures
        message::decoded::<DeviceState>(blob) matches Some(m) ==> stored_version(
            ConfigKind::DeviceState,
            blob,
        ) == Some(m.version),
        message::decoded::<NodeDatabase>(blob) matches Some(m) ==> stored_version(
            ConfigKind::NodeDatabase,
            blob,
        ) == Some(m.version),
        message::decoded::<LocalConfig>(blob) matches Some(m) ==> stored_version(
            ConfigKind::LocalConfig,
            blob,
        ) == Some(m.version),
        message::decoded::<LocalModuleConfig>(blob) matches Some(m) ==> stored_version(
            ConfigKind::LocalModuleConfig,
            blob,
        ) == Some(m.version),
        message::decoded::<ChannelFile>(blob) matches Some(m) ==> stored_version(
            ConfigKind::ChannelFile,
            blob,
        ) == Some(m.version),
        message::decoded::<DeviceState>(blob) is None ==> stored_version(
            ConfigKind::DeviceState,
            blob,
        ) is None,
        message::decoded::<NodeDatabase>(blob) is None ==> stored_version(
            ConfigKind::NodeDatabase,
            blob,
        ) is None,
        message::decoded::<LocalConfig>(blob) is None ==> stored_version(
            ConfigKind::LocalConfig,
            blob,
        ) is None,
        message::decoded::<LocalModuleConfig>(blob) is None ==> stored_version(
            ConfigKind::LocalModuleConfig,
            blob,
        ) is None,
        message::decoded::<ChannelFile>(blob) is None ==> stored_version(
            ConfigKind::ChannelFile,
            blob,
        ) is None,
{
}

/// What a loaded message is worth: it is given back, byte for byte, if and only if its
/// version is 24 or later; an older one is refused with its version, and one that cannot be
/// read or has no version is refused for that. A message that is not there is no error.
pub proof fn lemma_checked(
    kind: ConfigKind,
    loaded: Option<Seq<u8>>,
    r: Result<Option<Vec<u8>>, ConfigError>,
)
    requires
        is_checked(kind, loaded, r),
    ensures
        loaded is None ==> (r matches Ok(None)),
        loaded matches Some(bytes) ==> {
            &&& stored_version(kind, bytes) matches Some(v) ==> {
                &&& v >= 24 <==> r is Ok
                &&& v >= 24 ==> (r matches Ok(Some(b)) && b@ == bytes)
                &&& v < 24 ==> (r matches Err(ConfigError::VersionTooOld { kind: k, found, minimum })
                    && k == kind && found == v && minimum == 24)
            }
            &&& stored_version(kind, bytes) is None ==> {
                &&& kind == ConfigKind::DeviceUiConfig ==> (r matches Err(
                    ConfigError::NoVersionField { kind: k },
                ) && k == kind)
                &&& kind != ConfigKind::DeviceUiConfig ==> (r matches Err(ConfigError::Decode(_)))
            }
        },
{
}

/// A message that was stored under the current version is given back when it is loaded: what
/// was stored decodes to what was handed over, with the version 24.
pub proof fn lemma_stored_is_loaded(
    kind: ConfigKind,
    blob: Seq<u8>,
    r: Result<Option<Vec<u8>>, ConfigError>,
)
    requires
        stamped(kind, blob) matches Some(b) && b.len() <= u64::MAX,
        is_checked(kind, stamped(kind, blob), r),
    ensures
        r matches Ok(Some(b)) && stamped(kind, blob) == Some(b@),
        stored_version(kind, stamped(kind, blob)->0) == Some(24u32),
{
    lemma_version_of_stamped(kind, blob);
}

/// What was saved is what is loaded: under the kind that was saved the new bytes, under any
/// other kind what was there before.
pub proof fn lemma_saved_then_loaded(
    before: MemoryConfigStore,
    after: MemoryConfigStore,
    kind: ConfigKind,
    bytes: Seq<u8>,
    saved: Result<(), ConfigError>,
    other: ConfigKind,
    loaded: Result<Option<Vec<u8>>, ConfigError>,
)
    requires
        before.may_save(kind, bytes, saved, after.contents()),
        after.may_load(other, loaded),
    ensures
        saved is Ok,
        loaded is Ok,
        other == kind ==> (loaded matches Ok(Some(b)) && b@ == bytes),
        other != kind ==> before.may_load(other, loaded),
{
}

/// What was deleted is not there any more, and nothing else is touched.
pub proof fn lemma_deleted_then_loaded(
    before: MemoryConfigStore,
    after: MemoryConfigStore,
    kind: ConfigKind,
    deleted: Result<(), ConfigError>,
    other: ConfigKind,
    loaded: Result<Option<Vec<u8>>, ConfigError>,
)
    requires
        before.may_delete(kind, deleted, after.contents()),
        after.may_load(other, loaded),
    ensures
        deleted is Ok,
        other == kind ==> (loaded matches Ok(None)),
        other != kind ==> before.may_load(other, loaded),
{
}

/// Loading twice with nothing in between gives the same bytes.
pub proof fn lemma_loaded_twice(
    store: MemoryConfigStore,
    kind: ConfigKind,
    first: Result<Option<Vec<u8>>, ConfigError>,
    second: Result<Option<Vec<u8>>, ConfigError>,
)
    requires
        store.may_load(kind, first),
        store.may_load(kind, second),
    ensures
        first matches Ok(a) && second matches Ok(b) && message::opt_view(a) == message::opt_view(b),
{
}

} // verus!
