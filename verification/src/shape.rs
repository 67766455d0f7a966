//! The shapes of messages that are held in their wire form.
//!
//! A shape says of which kind each field of a message is, and in which place it
//! is written.

use vstd::prelude::*;

verus! {

/// A message, as to its fields.
#[derive(Debug, Clone, Copy, PartialEq, Eq, Structural)]
pub enum Shape {
    /// Where a node is.
    Position,
    /// Where a node is, as the node database keeps it.
    PositionLite,
    /// How a device fares.
    DeviceMetrics,
    /// A route and the signal along it.
    RouteDiscovery,
    /// The payload of a packet.
    Data,
    /// A packet.
    MeshPacket,
    /// Who a node is.
    User,
    /// What the phone is told of this node.
    MyNodeInfo,
    /// A pin of a remote device.
    RemoteHardwarePin,
    /// A pin of a node.
    NodeRemoteHardwarePin,
    /// The device section.
    DeviceConfig,
    /// The position section.
    PositionConfig,
    /// The power section.
    PowerConfig,
    /// A static address.
    IpV4Config,
    /// The network section.
    NetworkConfig,
    /// The display section.
    DisplayConfig,
    /// The radio section.
    LoRaConfig,
    /// The Bluetooth section.
    BluetoothConfig,
    /// The security section.
    SecurityConfig,
    /// The session key section, which is empty.
    SessionkeyConfig,
    /// Which nodes the screen lists.
    NodeFilter,
    /// Which nodes the screen marks.
    NodeHighlight,
    /// A place on the map.
    GeoPoint,
    /// The map on the screen.
    MapView,
    /// The screen section.
    DeviceUiConfig,
    /// What is reported to the map.
    MapReportSettings,
    /// The MQTT section.
    MqttConfig,
    /// The serial section.
    SerialConfig,
    /// The notification section.
    ExternalNotificationConfig,
    /// The store and forward section.
    StoreForwardConfig,
    /// The range test section.
    RangeTestConfig,
    /// The telemetry section.
    TelemetryConfig,
    /// The canned message section.
    CannedMessageConfig,
    /// The audio section.
    AudioConfig,
    /// The remote hardware section.
    RemoteHardwareConfig,
    /// The neighbour section.
    NeighborInfoConfig,
    /// The lighting section.
    AmbientLightingConfig,
    /// The sensor section.
    DetectionSensorConfig,
    /// The people counter section.
    PaxcounterConfig,
    /// The status section.
    StatusMessageConfig,
    /// The traffic section.
    TrafficManagementConfig,
    /// The state of the device, as it is stored.
    DeviceState,
    /// The configuration of the device, as it is stored.
    LocalConfig,
    /// The configuration of the modules, as it is stored.
    LocalModuleConfig,
}

/// The kind of a single value.
#[derive(Debug, Clone, Copy, PartialEq, Eq, Structural)]
pub enum Scalar {
    /// A truth value, as a varint.
    Bool,
    /// A signed integer of 32 bits or an enumeration, as a varint.
    Int32,
    /// An unsigned integer of 32 bits, as a varint.
    Uint32,
    /// An integer of 64 bits, as a varint.
    Uint64,
    /// An integer of four bytes.
    Fixed32,
    /// A float of four bytes.
    Float,
    /// A byte string.
    Bytes,
    /// A text, in UTF-8.
    Text,
}

/// The kind of a field.
#[derive(Debug, Clone, Copy, PartialEq, Eq, Structural)]
pub enum Kind {
    /// A value that is written unless it is zero or empty.
    Plain(Scalar),
    /// A value that is written wherever it is there.
    Optional(Scalar),
    /// A list of values, written in one field and read from any number of fields.
    Packed(Scalar),
    /// A list of values, one a field.
    List(Scalar),
    /// A message. Where it occurs more than once, its occurrences are merged.
    Message(Shape),
    /// A list of messages, one a field.
    Messages(Shape),
}

/// Whether a field of a kind may occur more than once where it is written.
pub open spec fn is_list(k: Kind) -> bool {
    k is List || k is Messages
}

/// The kind of a field of a message, `None` where the message does not know it.
#[verifier::opaque]
pub open spec fn kind(shape: Shape, tag: u32) -> Option<Kind> {
    match shape {
        Shape::Position => if tag == 1 || tag == 2 {
            Some(Kind::Optional(Scalar::Fixed32))
        } else if tag == 3 {
            Some(Kind::Optional(Scalar::Int32))
        } else if tag == 4 || tag == 7 {
            Some(Kind::Plain(Scalar::Fixed32))
        } else if tag == 5 || tag == 6 || tag == 8 {
            Some(Kind::Plain(Scalar::Int32))
        } else if tag == 9 || tag == 10 || tag == 15 || tag == 16 {
            Some(Kind::Optional(Scalar::Uint32))
        } else if (11 <= tag && tag <= 14) || (17 <= tag && tag <= 23) {
            Some(Kind::Plain(Scalar::Uint32))
        } else {
            None
        },
        Shape::PositionLite => if tag == 1 || tag == 2 || tag == 4 {
            Some(Kind::Plain(Scalar::Fixed32))
        } else if tag == 3 || tag == 5 {
            Some(Kind::Plain(Scalar::Int32))
        } else {
            None
        },
        Shape::DeviceMetrics => if tag == 1 || tag == 5 {
            Some(Kind::Optional(Scalar::Uint32))
        } else if 2 <= tag && tag <= 4 {
            Some(Kind::Optional(Scalar::Float))
        } else {
            None
        },
        Shape::RouteDiscovery => if tag == 1 || tag == 3 {
            Some(Kind::Packed(Scalar::Fixed32))
        } else if tag == 2 || tag == 4 {
            Some(Kind::Packed(Scalar::Int32))
        } else {
            None
        },
        Shape::Data => if tag == 1 {
            Some(Kind::Plain(Scalar::Int32))
        } else if tag == 2 {
            Some(Kind::Plain(Scalar::Bytes))
        } else if tag == 3 {
            Some(Kind::Plain(Scalar::Bool))
        } else if 4 <= tag && tag <= 8 {
            Some(Kind::Plain(Scalar::Fixed32))
        } else if tag == 9 {
            Some(Kind::Optional(Scalar::Uint32))
        } else {
            None
        },
        Shape::MeshPacket => if tag == 1 || tag == 2 || tag == 6 || tag == 7 {
            Some(Kind::Plain(Scalar::Fixed32))
        } else if tag == 3 || tag == 9 || tag == 15 || (18 <= tag && tag <= 20) {
            Some(Kind::Plain(Scalar::Uint32))
        } else if tag == 4 {
            Some(Kind::Message(Shape::Data))
        } else if tag == 5 {
            Some(Kind::Optional(Scalar::Bytes))
        } else if tag == 8 {
            Some(Kind::Plain(Scalar::Float))
        } else if tag == 10 || tag == 14 || tag == 17 {
            Some(Kind::Plain(Scalar::Bool))
        } else if (11 <= tag && tag <= 13) || tag == 21 {
            Some(Kind::Plain(Scalar::Int32))
        } else if tag == 16 {
            Some(Kind::Plain(Scalar::Bytes))
        } else {
            None
        },
        Shape::User => if 1 <= tag && tag <= 3 {
            Some(Kind::Plain(Scalar::Text))
        } else if tag == 4 || tag == 8 {
            Some(Kind::Plain(Scalar::Bytes))
        } else if tag == 5 || tag == 7 {
            Some(Kind::Plain(Scalar::Int32))
        } else if tag == 6 {
            Some(Kind::Plain(Scalar::Bool))
        } else if tag == 9 {
            Some(Kind::Optional(Scalar::Bool))
        } else {
            None
        },
        Shape::MyNodeInfo => if tag == 1 || tag == 8 || tag == 11 || tag == 15 {
            Some(Kind::Plain(Scalar::Uint32))
        } else if tag == 12 {
            Some(Kind::Plain(Scalar::Bytes))
        } else if tag == 13 {
            Some(Kind::Plain(Scalar::Text))
        } else if tag == 14 {
            Some(Kind::Plain(Scalar::Int32))
        } else {
            None
        },
        Shape::RemoteHardwarePin => if tag == 1 {
            Some(Kind::Plain(Scalar::Uint32))
        } else if tag == 2 {
            Some(Kind::Plain(Scalar::Text))
        } else if tag == 3 {
            Some(Kind::Plain(Scalar::Int32))
        } else {
            None
        },
        Shape::NodeRemoteHardwarePin => if tag == 1 {
            Some(Kind::Plain(Scalar::Uint32))
        } else if tag == 2 {
            Some(Kind::Message(Shape::RemoteHardwarePin))
        } else {
            None
        },
        Shape::DeviceConfig => if tag == 1 || tag == 6 || tag == 13 {
            Some(Kind::Plain(Scalar::Int32))
        } else if tag == 2 || (8 <= tag && tag <= 10) || tag == 12 {
            Some(Kind::Plain(Scalar::Bool))
        } else if tag == 4 || tag == 5 || tag == 7 {
            Some(Kind::Plain(Scalar::Uint32))
        } else if tag == 11 {
            Some(Kind::Plain(Scalar::Text))
        } else {
            None
        },
        Shape::PositionConfig => if tag == 1 || (5 <= tag && tag <= 12) {
            Some(Kind::Plain(Scalar::Uint32))
        } else if 2 <= tag && tag <= 4 {
            Some(Kind::Plain(Scalar::Bool))
        } else if tag == 13 {
            Some(Kind::Plain(Scalar::Int32))
        } else {
            None
        },
        Shape::PowerConfig => if tag == 1 {
            Some(Kind::Plain(Scalar::Bool))
        } else if tag == 2 || tag == 4 || (6 <= tag && tag <= 9) {
            Some(Kind::Plain(Scalar::Uint32))
        } else if tag == 3 {
            Some(Kind::Plain(Scalar::Float))
        } else if tag == 32 {
            Some(Kind::Plain(Scalar::Uint64))
        } else {
            None
        },
        Shape::IpV4Config => if 1 <= tag && tag <= 4 {
            Some(Kind::Plain(Scalar::Fixed32))
        } else {
            None
        },
        Shape::NetworkConfig => if tag == 1 || tag == 6 || tag == 11 {
            Some(Kind::Plain(Scalar::Bool))
        } else if (3 <= tag && tag <= 5) || tag == 9 {
            Some(Kind::Plain(Scalar::Text))
        } else if tag == 7 {
            Some(Kind::Plain(Scalar::Int32))
        } else if tag == 8 {
            Some(Kind::Message(Shape::IpV4Config))
        } else if tag == 10 {
            Some(Kind::Plain(Scalar::Uint32))
        } else {
            None
        },
        Shape::DisplayConfig => if tag == 1 || tag == 3 {
            Some(Kind::Plain(Scalar::Uint32))
        } else if tag == 2 || (6 <= tag && tag <= 8) || tag == 11 {
            Some(Kind::Plain(Scalar::Int32))
        } else if tag == 4 || tag == 5 || tag == 9 || tag == 10 || (12 <= tag && tag <= 14) {
            Some(Kind::Plain(Scalar::Bool))
        } else {
            None
        },
        Shape::LoRaConfig => if tag == 1 || tag == 9 || tag == 12 || tag == 13 || tag == 15
            || tag == 104 || tag == 105 {
            Some(Kind::Plain(Scalar::Bool))
        } else if tag == 2 || tag == 7 || tag == 10 {
            Some(Kind::Plain(Scalar::Int32))
        } else if (3 <= tag && tag <= 5) || tag == 8 || tag == 11 {
            Some(Kind::Plain(Scalar::Uint32))
        } else if tag == 6 || tag == 14 {
            Some(Kind::Plain(Scalar::Float))
        } else if tag == 103 {
            Some(Kind::Packed(Scalar::Uint32))
        } else {
            None
        },
        Shape::BluetoothConfig => if tag == 1 {
            Some(Kind::Plain(Scalar::Bool))
        } else if tag == 2 {
            Some(Kind::Plain(Scalar::Int32))
        } else if tag == 3 {
            Some(Kind::Plain(Scalar::Uint32))
        } else {
            None
        },
        Shape::SecurityConfig => if tag == 1 || tag == 2 {
            Some(Kind::Plain(Scalar::Bytes))
        } else if tag == 3 {
            Some(Kind::List(Scalar::Bytes))
        } else if (4 <= tag && tag <= 6) || tag == 8 {
            Some(Kind::Plain(Scalar::Bool))
        } else {
            None
        },
        Shape::NodeFilter => if (1 <= tag && tag <= 3) || tag == 5 {
            Some(Kind::Plain(Scalar::Bool))
        } else if tag == 4 || tag == 7 {
            Some(Kind::Plain(Scalar::Int32))
        } else if tag == 6 {
            Some(Kind::Plain(Scalar::Text))
        } else {
            None
        },
        Shape::NodeHighlight => if 1 <= tag && tag <= 4 {
            Some(Kind::Plain(Scalar::Bool))
        } else if tag == 5 {
            Some(Kind::Plain(Scalar::Text))
        } else {
            None
        },
        Shape::GeoPoint => if 1 <= tag && tag <= 3 {
            Some(Kind::Plain(Scalar::Int32))
        } else {
            None
        },
        Shape::MapView => if tag == 1 {
            Some(Kind::Message(Shape::GeoPoint))
        } else if tag == 2 {
            Some(Kind::Plain(Scalar::Text))
        } else if tag == 3 {
            Some(Kind::Plain(Scalar::Bool))
        } else {
            None
        },
        Shape::DeviceUiConfig => if (1 <= tag && tag <= 3) || tag == 6 || tag == 10 || tag == 17 {
            Some(Kind::Plain(Scalar::Uint32))
        } else if tag == 4 || tag == 5 || tag == 8 || tag == 9 || tag == 18 {
            Some(Kind::Plain(Scalar::Bool))
        } else if tag == 7 || tag == 11 || tag == 16 || tag == 19 {
            Some(Kind::Plain(Scalar::Int32))
        } else if tag == 12 {
            Some(Kind::Message(Shape::NodeFilter))
        } else if tag == 13 {
            Some(Kind::Message(Shape::NodeHighlight))
        } else if tag == 14 {
            Some(Kind::Plain(Scalar::Bytes))
        } else if tag == 15 {
            Some(Kind::Message(Shape::MapView))
        } else {
            None
        },
        Shape::MapReportSettings => if tag == 1 || tag == 2 {
            Some(Kind::Plain(Scalar::Uint32))
        } else if tag == 3 {
            Some(Kind::Plain(Scalar::Bool))
        } else {
            None
        },
        Shape::MqttConfig => if tag == 1 || (5 <= tag && tag <= 7) || tag == 9 || tag == 10 {
            Some(Kind::Plain(Scalar::Bool))
        } else if (2 <= tag && tag <= 4) || tag == 8 {
            Some(Kind::Plain(Scalar::Text))
        } else if tag == 11 {
            Some(Kind::Message(Shape::MapReportSettings))
        } else {
            None
        },
        Shape::SerialConfig => if tag == 1 || tag == 2 || tag == 8 {
            Some(Kind::Plain(Scalar::Bool))
        } else if tag == 3 || tag == 4 || tag == 6 {
            Some(Kind::Plain(Scalar::Uint32))
        } else if tag == 5 || tag == 7 {
            Some(Kind::Plain(Scalar::Int32))
        } else {
            None
        },
        Shape::ExternalNotificationConfig => if tag == 1 || (4 <= tag && tag <= 7)
            || (10 <= tag && tag <= 13) || tag == 15 {
            Some(Kind::Plain(Scalar::Bool))
        } else if tag == 2 || tag == 3 || tag == 8 || tag == 9 || tag == 14 {
            Some(Kind::Plain(Scalar::Uint32))
        } else {
            None
        },
        Shape::StoreForwardConfig => if tag == 1 || tag == 2 || tag == 6 {
            Some(Kind::Plain(Scalar::Bool))
        } else if 3 <= tag && tag <= 5 {
            Some(Kind::Plain(Scalar::Uint32))
        } else {
            None
        },
        Shape::RangeTestConfig => if tag == 1 || tag == 3 || tag == 4 {
            Some(Kind::Plain(Scalar::Bool))
        } else if tag == 2 {
            Some(Kind::Plain(Scalar::Uint32))
        } else {
            None
        },
        Shape::TelemetryConfig => if tag == 1 || tag == 2 || tag == 7 || tag == 9 || tag == 12 {
            Some(Kind::Plain(Scalar::Uint32))
        } else if (3 <= tag && tag <= 6) || tag == 8 || tag == 10 || tag == 11
            || (13 <= tag && tag <= 15) {
            Some(Kind::Plain(Scalar::Bool))
        } else {
            None
        },
        Shape::CannedMessageConfig => if tag == 1 || tag == 8 || tag == 9 || tag == 11 {
            Some(Kind::Plain(Scalar::Bool))
        } else if 2 <= tag && tag <= 4 {
            Some(Kind::Plain(Scalar::Uint32))
        } else if 5 <= tag && tag <= 7 {
            Some(Kind::Plain(Scalar::Int32))
        } else if tag == 10 {
            Some(Kind::Plain(Scalar::Text))
        } else {
            None
        },
        Shape::AudioConfig => if tag == 1 {
            Some(Kind::Plain(Scalar::Bool))
        } else if tag == 2 || (4 <= tag && tag <= 7) {
            Some(Kind::Plain(Scalar::Uint32))
        } else if tag == 3 {
            Some(Kind::Plain(Scalar::Int32))
        } else {
            None
        },
        Shape::RemoteHardwareConfig => if tag == 1 || tag == 2 {
            Some(Kind::Plain(Scalar::Bool))
        } else if tag == 3 {
            Some(Kind::Messages(Shape::RemoteHardwarePin))
        } else {
            None
        },
        Shape::NeighborInfoConfig => if tag == 1 || tag == 3 {
            Some(Kind::Plain(Scalar::Bool))
        } else if tag == 2 {
            Some(Kind::Plain(Scalar::Uint32))
        } else {
            None
        },
        Shape::AmbientLightingConfig => if tag == 1 {
            Some(Kind::Plain(Scalar::Bool))
        } else if 2 <= tag && tag <= 5 {
            Some(Kind::Plain(Scalar::Uint32))
        } else {
            None
        },
        Shape::DetectionSensorConfig => if tag == 1 || tag == 4 || tag == 8 {
            Some(Kind::Plain(Scalar::Bool))
        } else if tag == 2 || tag == 3 || tag == 6 {
            Some(Kind::Plain(Scalar::Uint32))
        } else if tag == 5 {
            Some(Kind::Plain(Scalar::Text))
        } else if tag == 7 {
            Some(Kind::Plain(Scalar::Int32))
        } else {
            None
        },
        Shape::PaxcounterConfig => if tag == 1 {
            Some(Kind::Plain(Scalar::Bool))
        } else if tag == 2 {
            Some(Kind::Plain(Scalar::Uint32))
        } else if tag == 3 || tag == 4 {
            Some(Kind::Plain(Scalar::Int32))
        } else {
            None
        },
        Shape::StatusMessageConfig => if tag == 1 {
            Some(Kind::Plain(Scalar::Text))
        } else {
            None
        },
        Shape::TrafficManagementConfig => if tag == 1 || tag == 2 || tag == 5 || tag == 7
            || tag == 10 || (12 <= tag && tag <= 14) {
            Some(Kind::Plain(Scalar::Bool))
        } else if tag == 3 || tag == 4 || tag == 6 || tag == 8 || tag == 9 || tag == 11 {
            Some(Kind::Plain(Scalar::Uint32))
        } else {
            None
        },
        Shape::DeviceState => if tag == 2 {
            Some(Kind::Message(Shape::MyNodeInfo))
        } else if tag == 3 {
            Some(Kind::Message(Shape::User))
        } else if tag == 5 {
            Some(Kind::Messages(Shape::MeshPacket))
        } else if tag == 7 || tag == 12 {
            Some(Kind::Message(Shape::MeshPacket))
        } else if tag == 8 {
            Some(Kind::Plain(Scalar::Uint32))
        } else if tag == 9 || tag == 11 {
            Some(Kind::Plain(Scalar::Bool))
        } else if tag == 13 {
            Some(Kind::Messages(Shape::NodeRemoteHardwarePin))
        } else {
            None
        },
        Shape::LocalConfig => if tag == 1 {
            Some(Kind::Message(Shape::DeviceConfig))
        } else if tag == 2 {
            Some(Kind::Message(Shape::PositionConfig))
        } else if tag == 3 {
            Some(Kind::Message(Shape::PowerConfig))
        } else if tag == 4 {
            Some(Kind::Message(Shape::NetworkConfig))
        } else if tag == 5 {
            Some(Kind::Message(Shape::DisplayConfig))
        } else if tag == 6 {
            Some(Kind::Message(Shape::LoRaConfig))
        } else if tag == 7 {
            Some(Kind::Message(Shape::BluetoothConfig))
        } else if tag == 8 {
            Some(Kind::Plain(Scalar::Uint32))
        } else if tag == 9 {
            Some(Kind::Message(Shape::SecurityConfig))
        } else {
            None
        },
        Shape::LocalModuleConfig => if tag == 1 {
            Some(Kind::Message(Shape::MqttConfig))
        } else if tag == 2 {
            Some(Kind::Message(Shape::SerialConfig))
        } else if tag == 3 {
            Some(Kind::Message(Shape::ExternalNotificationConfig))
        } else if tag == 4 {
            Some(Kind::Message(Shape::StoreForwardConfig))
        } else if tag == 5 {
            Some(Kind::Message(Shape::RangeTestConfig))
        } else if tag == 6 {
            Some(Kind::Message(Shape::TelemetryConfig))
        } else if tag == 7 {
            Some(Kind::Message(Shape::CannedMessageConfig))
        } else if tag == 8 {
            Some(Kind::Plain(Scalar::Uint32))
        } else if tag == 9 {
            Some(Kind::Message(Shape::AudioConfig))
        } else if tag == 10 {
            Some(Kind::Message(Shape::RemoteHardwareConfig))
        } else if tag == 11 {
            Some(Kind::Message(Shape::NeighborInfoConfig))
        } else if tag == 12 {
            Some(Kind::Message(Shape::AmbientLightingConfig))
        } else if tag == 13 {
            Some(Kind::Message(Shape::DetectionSensorConfig))
        } else if tag == 14 {
            Some(Kind::Message(Shape::PaxcounterConfig))
        } else if tag == 15 {
            Some(Kind::Message(Shape::StatusMessageConfig))
        } else if tag == 16 {
            Some(Kind::Message(Shape::TrafficManagementConfig))
        } else {
            None
        },
        Shape::SessionkeyConfig => None,
    }
}

/// The place in which a field is written. The two payloads of a packet, of which
/// it has one, share a place.
pub open spec fn place(shape: Shape, tag: u32) -> u32 {
    if shape == Shape::MeshPacket && tag == 5 {
        4
    } else {
        tag
    }
}

/// How deep messages are nested in a message.
pub open spec fn rank(shape: Shape) -> nat {
    match shape {
        Shape::MeshPacket
        | Shape::NodeRemoteHardwarePin
        | Shape::NetworkConfig
        | Shape::MapView
        | Shape::MqttConfig
        | Shape::RemoteHardwareConfig => 1,
        Shape::DeviceUiConfig
        | Shape::DeviceState
        | Shape::LocalConfig
        | Shape::LocalModuleConfig => 2,
        _ => 0,
    }
}

/// A message is nested less deep than the one that it is a field of.
pub proof fn lemma_rank(shape: Shape, tag: u32)
    ensures
        kind(shape, tag) matches Some(Kind::Message(inner)) ==> rank(inner) < rank(shape),
        kind(shape, tag) matches Some(Kind::Messages(inner)) ==> rank(inner) < rank(shape),
{
    reveal(kind);
}

/// A list shares its place with no other field.
pub proof fn lemma_place(shape: Shape, tag: u32, other: u32)
    requires
        place(shape, tag) == place(shape, other),
        kind(shape, tag) matches Some(k) && is_list(k),
    ensures
        tag == other,
{
    reveal(kind);
}

/// The kind of a field of a message.
pub(crate) fn kind_of(shape: Shape, tag: u32) -> (r: Option<Kind>)
    ensures
        r == kind(shape, tag),
{
    reveal(kind);
    match shape {
        Shape::Position => if tag == 1 || tag == 2 {
            Some(Kind::Optional(Scalar::Fixed32))
        } else if tag == 3 {
            Some(Kind::Optional(Scalar::Int32))
        } else if tag == 4 || tag == 7 {
            Some(Kind::Plain(Scalar::Fixed32))
        } else if tag == 5 || tag == 6 || tag == 8 {
            Some(Kind::Plain(Scalar::Int32))
        } else if tag == 9 || tag == 10 || tag == 15 || tag == 16 {
            Some(Kind::Optional(Scalar::Uint32))
        } else if (11 <= tag && tag <= 14) || (17 <= tag && tag <= 23) {
            Some(Kind::Plain(Scalar::Uint32))
        } else {
            None
        },
        Shape::PositionLite => if tag == 1 || tag == 2 || tag == 4 {
            Some(Kind::Plain(Scalar::Fixed32))
        } else if tag == 3 || tag == 5 {
            Some(Kind::Plain(Scalar::Int32))
        } else {
            None
        },
        Shape::DeviceMetrics => if tag == 1 || tag == 5 {
            Some(Kind::Optional(Scalar::Uint32))
        } else if 2 <= tag && tag <= 4 {
            Some(Kind::Optional(Scalar::Float))
        } else {
            None
        },
        Shape::RouteDiscovery => if tag == 1 || tag == 3 {
            Some(Kind::Packed(Scalar::Fixed32))
        } else if tag == 2 || tag == 4 {
            Some(Kind::Packed(Scalar::Int32))
        } else {
            None
        },
        Shape::Data => if tag == 1 {
            Some(Kind::Plain(Scalar::Int32))
        } else if tag == 2 {
            Some(Kind::Plain(Scalar::Bytes))
        } else if tag == 3 {
            Some(Kind::Plain(Scalar::Bool))
        } else if 4 <= tag && tag <= 8 {
            Some(Kind::Plain(Scalar::Fixed32))
        } else if tag == 9 {
            Some(Kind::Optional(Scalar::Uint32))
        } else {
            None
        },
        Shape::MeshPacket => if tag == 1 || tag == 2 || tag == 6 || tag == 7 {
            Some(Kind::Plain(Scalar::Fixed32))
        } else if tag == 3 || tag == 9 || tag == 15 || (18 <= tag && tag <= 20) {
            Some(Kind::Plain(Scalar::Uint32))
        } else if tag == 4 {
            Some(Kind::Message(Shape::Data))
        } else if tag == 5 {
            Some(Kind::Optional(Scalar::Bytes))
        } else if tag == 8 {
            Some(Kind::Plain(Scalar::Float))
        } else if tag == 10 || tag == 14 || tag == 17 {
            Some(Kind::Plain(Scalar::Bool))
        } else if (11 <= tag && tag <= 13) || tag == 21 {
            Some(Kind::Plain(Scalar::Int32))
        } else if tag == 16 {
            Some(Kind::Plain(Scalar::Bytes))
        } else {
            None
        },
        Shape::User => if 1 <= tag && tag <= 3 {
            Some(Kind::Plain(Scalar::Text))
        } else if tag == 4 || tag == 8 {
            Some(Kind::Plain(Scalar::Bytes))
        } else if tag == 5 || tag == 7 {
            Some(Kind::Plain(Scalar::Int32))
        } else if tag == 6 {
            Some(Kind::Plain(Scalar::Bool))
        } else if tag == 9 {
            Some(Kind::Optional(Scalar::Bool))
        } else {
            None
        },
        Shape::MyNodeInfo => if tag == 1 || tag == 8 || tag == 11 || tag == 15 {
            Some(Kind::Plain(Scalar::Uint32))
        } else if tag == 12 {
            Some(Kind::Plain(Scalar::Bytes))
        } else if tag == 13 {
            Some(Kind::Plain(Scalar::Text))
        } else if tag == 14 {
            Some(Kind::Plain(Scalar::Int32))
        } else {
            None
        },
        Shape::RemoteHardwarePin => if tag == 1 {
            Some(Kind::Plain(Scalar::Uint32))
        } else if tag == 2 {
            Some(Kind::Plain(Scalar::Text))
        } else if tag == 3 {
            Some(Kind::Plain(Scalar::Int32))
        } else {
            None
        },
        Shape::NodeRemoteHardwarePin => if tag == 1 {
            Some(Kind::Plain(Scalar::Uint32))
        } else if tag == 2 {
            Some(Kind::Message(Shape::RemoteHardwarePin))
        } else {
            None
        },
        Shape::DeviceConfig => if tag == 1 || tag == 6 || tag == 13 {
            Some(Kind::Plain(Scalar::Int32))
        } else if tag == 2 || (8 <= tag && tag <= 10) || tag == 12 {
            Some(Kind::Plain(Scalar::Bool))
        } else if tag == 4 || tag == 5 || tag == 7 {
            Some(Kind::Plain(Scalar::Uint32))
        } else if tag == 11 {
            Some(Kind::Plain(Scalar::Text))
        } else {
            None
        },
        Shape::PositionConfig => if tag == 1 || (5 <= tag && tag <= 12) {
            Some(Kind::Plain(Scalar::Uint32))
        } else if 2 <= tag && tag <= 4 {
            Some(Kind::Plain(Scalar::Bool))
        } else if tag == 13 {
            Some(Kind::Plain(Scalar::Int32))
        } else {
            None
        },
        Shape::PowerConfig => if tag == 1 {
            Some(Kind::Plain(Scalar::Bool))
        } else if tag == 2 || tag == 4 || (6 <= tag && tag <= 9) {
            Some(Kind::Plain(Scalar::Uint32))
        } else if tag == 3 {
            Some(Kind::Plain(Scalar::Float))
        } else if tag == 32 {
            Some(Kind::Plain(Scalar::Uint64))
        } else {
            None
        },
        Shape::IpV4Config => if 1 <= tag && tag <= 4 {
            Some(Kind::Plain(Scalar::Fixed32))
        } else {
            None
        },
        Shape::NetworkConfig => if tag == 1 || tag == 6 || tag == 11 {
            Some(Kind::Plain(Scalar::Bool))
        } else if (3 <= tag && tag <= 5) || tag == 9 {
            Some(Kind::Plain(Scalar::Text))
        } else if tag == 7 {
            Some(Kind::Plain(Scalar::Int32))
        } else if tag == 8 {
            Some(Kind::Message(Shape::IpV4Config))
        } else if tag == 10 {
            Some(Kind::Plain(Scalar::Uint32))
        } else {
            None
        },
        Shape::DisplayConfig => if tag == 1 || tag == 3 {
            Some(Kind::Plain(Scalar::Uint32))
        } else if tag == 2 || (6 <= tag && tag <= 8) || tag == 11 {
            Some(Kind::Plain(Scalar::Int32))
        } else if tag == 4 || tag == 5 || tag == 9 || tag == 10 || (12 <= tag && tag <= 14) {
            Some(Kind::Plain(Scalar::Bool))
        } else {
            None
        },
        Shape::LoRaConfig => if tag == 1 || tag == 9 || tag == 12 || tag == 13 || tag == 15
            || tag == 104 || tag == 105 {
            Some(Kind::Plain(Scalar::Bool))
        } else if tag == 2 || tag == 7 || tag == 10 {
            Some(Kind::Plain(Scalar::Int32))
        } else if (3 <= tag && tag <= 5) || tag == 8 || tag == 11 {
            Some(Kind::Plain(Scalar::Uint32))
        } else if tag == 6 || tag == 14 {
            Some(Kind::Plain(Scalar::Float))
        } else if tag == 103 {
            Some(Kind::Packed(Scalar::Uint32))
        } else {
            None
        },
        Shape::BluetoothConfig => if tag == 1 {
            Some(Kind::Plain(Scalar::Bool))
        } else if tag == 2 {
            Some(Kind::Plain(Scalar::Int32))
        } else if tag == 3 {
            Some(Kind::Plain(Scalar::Uint32))
        } else {
            None
        },
        Shape::SecurityConfig => if tag == 1 || tag == 2 {
            Some(Kind::Plain(Scalar::Bytes))
        } else if tag == 3 {
            Some(Kind::List(Scalar::Bytes))
        } else if (4 <= tag && tag <= 6) || tag == 8 {
            Some(Kind::Plain(Scalar::Bool))
        } else {
            None
        },
        Shape::NodeFilter => if (1 <= tag && tag <= 3) || tag == 5 {
            Some(Kind::Plain(Scalar::Bool))
        } else if tag == 4 || tag == 7 {
            Some(Kind::Plain(Scalar::Int32))
        } else if tag == 6 {
            Some(Kind::Plain(Scalar::Text))
        } else {
            None
        },
        Shape::NodeHighlight => if 1 <= tag && tag <= 4 {
            Some(Kind::Plain(Scalar::Bool))
        } else if tag == 5 {
            Some(Kind::Plain(Scalar::Text))
        } else {
            None
        },
        Shape::GeoPoint => if 1 <= tag && tag <= 3 {
            Some(Kind::Plain(Scalar::Int32))
        } else {
            None
        },
        Shape::MapView => if tag == 1 {
            Some(Kind::Message(Shape::GeoPoint))
        } else if tag == 2 {
            Some(Kind::Plain(Scalar::Text))
        } else if tag == 3 {
            Some(Kind::Plain(Scalar::Bool))
        } else {
            None
        },
        Shape::DeviceUiConfig => if (1 <= tag && tag <= 3) || tag == 6 || tag == 10 || tag == 17 {
            Some(Kind::Plain(Scalar::Uint32))
        } else if tag == 4 || tag == 5 || tag == 8 || tag == 9 || tag == 18 {
            Some(Kind::Plain(Scalar::Bool))
        } else if tag == 7 || tag == 11 || tag == 16 || tag == 19 {
            Some(Kind::Plain(Scalar::Int32))
        } else if tag == 12 {
            Some(Kind::Message(Shape::NodeFilter))
        } else if tag == 13 {
            Some(Kind::Message(Shape::NodeHighlight))
        } else if tag == 14 {
            Some(Kind::Plain(Scalar::Bytes))
        } else if tag == 15 {
            Some(Kind::Message(Shape::MapView))
        } else {
            None
        },
        Shape::MapReportSettings => if tag == 1 || tag == 2 {
            Some(Kind::Plain(Scalar::Uint32))
        } else if tag == 3 {
            Some(Kind::Plain(Scalar::Bool))
        } else {
            None
        },
        Shape::MqttConfig => if tag == 1 || (5 <= tag && tag <= 7) || tag == 9 || tag == 10 {
            Some(Kind::Plain(Scalar::Bool))
        } else if (2 <= tag && tag <= 4) || tag == 8 {
            Some(Kind::Plain(Scalar::Text))
        } else if tag == 11 {
            Some(Kind::Message(Shape::MapReportSettings))
        } else {
            None
        },
        Shape::SerialConfig => if tag == 1 || tag == 2 || tag == 8 {
            Some(Kind::Plain(Scalar::Bool))
        } else if tag == 3 || tag == 4 || tag == 6 {
            Some(Kind::Plain(Scalar::Uint32))
        } else if tag == 5 || tag == 7 {
            Some(Kind::Plain(Scalar::Int32))
        } else {
            None
        },
        Shape::ExternalNotificationConfig => if tag == 1 || (4 <= tag && tag <= 7)
            || (10 <= tag && tag <= 13) || tag == 15 {
            Some(Kind::Plain(Scalar::Bool))
        } else if tag == 2 || tag == 3 || tag == 8 || tag == 9 || tag == 14 {
            Some(Kind::Plain(Scalar::Uint32))
        } else {
            None
        },
        Shape::StoreForwardConfig => if tag == 1 || tag == 2 || tag == 6 {
            Some(Kind::Plain(Scalar::Bool))
        } else if 3 <= tag && tag <= 5 {
            Some(Kind::Plain(Scalar::Uint32))
        } else {
            None
        },
        Shape::RangeTestConfig => if tag == 1 || tag == 3 || tag == 4 {
            Some(Kind::Plain(Scalar::Bool))
        } else if tag == 2 {
            Some(Kind::Plain(Scalar::Uint32))
        } else {
            None
        },
        Shape::TelemetryConfig => if tag == 1 || tag == 2 || tag == 7 || tag == 9 || tag == 12 {
            Some(Kind::Plain(Scalar::Uint32))
        } else if (3 <= tag && tag <= 6) || tag == 8 || tag == 10 || tag == 11
            || (13 <= tag && tag <= 15) {
            Some(Kind::Plain(Scalar::Bool))
        } else {
            None
        },
        Shape::CannedMessageConfig => if tag == 1 || tag == 8 || tag == 9 || tag == 11 {
            Some(Kind::Plain(Scalar::Bool))
        } else if 2 <= tag && tag <= 4 {
            Some(Kind::Plain(Scalar::Uint32))
        } else if 5 <= tag && tag <= 7 {
            Some(Kind::Plain(Scalar::Int32))
        } else if tag == 10 {
            Some(Kind::Plain(Scalar::Text))
        } else {
            None
        },
        Shape::AudioConfig => if tag == 1 {
            Some(Kind::Plain(Scalar::Bool))
        } else if tag == 2 || (4 <= tag && tag <= 7) {
            Some(Kind::Plain(Scalar::Uint32))
        } else if tag == 3 {
            Some(Kind::Plain(Scalar::Int32))
        } else {
            None
        },
        Shape::RemoteHardwareConfig => if tag == 1 || tag == 2 {
            Some(Kind::Plain(Scalar::Bool))
        } else if tag == 3 {
            Some(Kind::Messages(Shape::RemoteHardwarePin))
        } else {
            None
        },
        Shape::NeighborInfoConfig => if tag == 1 || tag == 3 {
            Some(Kind::Plain(Scalar::Bool))
        } else if tag == 2 {
            Some(Kind::Plain(Scalar::Uint32))
        } else {
            None
        },
        Shape::AmbientLightingConfig => if tag == 1 {
            Some(Kind::Plain(Scalar::Bool))
        } else if 2 <= tag && tag <= 5 {
            Some(Kind::Plain(Scalar::Uint32))
        } else {
            None
        },
        Shape::DetectionSensorConfig => if tag == 1 || tag == 4 || tag == 8 {
            Some(Kind::Plain(Scalar::Bool))
        } else if tag == 2 || tag == 3 || tag == 6 {
            Some(Kind::Plain(Scalar::Uint32))
        } else if tag == 5 {
            Some(Kind::Plain(Scalar::Text))
        } else if tag == 7 {
            Some(Kind::Plain(Scalar::Int32))
        } else {
            None
        },
        Shape::PaxcounterConfig => if tag == 1 {
            Some(Kind::Plain(Scalar::Bool))
        } else if tag == 2 {
            Some(Kind::Plain(Scalar::Uint32))
        } else if tag == 3 || tag == 4 {
            Some(Kind::Plain(Scalar::Int32))
        } else {
            None
        },
        Shape::StatusMessageConfig => if tag == 1 {
            Some(Kind::Plain(Scalar::Text))
        } else {
            None
        },
        Shape::TrafficManagementConfig => if tag == 1 || tag == 2 || tag == 5 || tag == 7
            || tag == 10 || (12 <= tag && tag <= 14) {
            Some(Kind::Plain(Scalar::Bool))
        } else if tag == 3 || tag == 4 || tag == 6 || tag == 8 || tag == 9 || tag == 11 {
            Some(Kind::Plain(Scalar::Uint32))
        } else {
            None
        },
        Shape::DeviceState => if tag == 2 {
            Some(Kind::Message(Shape::MyNodeInfo))
        } else if tag == 3 {
            Some(Kind::Message(Shape::User))
        } else if tag == 5 {
            Some(Kind::Messages(Shape::MeshPacket))
        } else if tag == 7 || tag == 12 {
            Some(Kind::Message(Shape::MeshPacket))
        } else if tag == 8 {
            Some(Kind::Plain(Scalar::Uint32))
        } else if tag == 9 || tag == 11 {
            Some(Kind::Plain(Scalar::Bool))
        } else if tag == 13 {
            Some(Kind::Messages(Shape::NodeRemoteHardwarePin))
        } else {
            None
        },
        Shape::LocalConfig => if tag == 1 {
            Some(Kind::Message(Shape::DeviceConfig))
        } else if tag == 2 {
            Some(Kind::Message(Shape::PositionConfig))
        } else if tag == 3 {
            Some(Kind::Message(Shape::PowerConfig))
        } else if tag == 4 {
            Some(Kind::Message(Shape::NetworkConfig))
        } else if tag == 5 {
            Some(Kind::Message(Shape::DisplayConfig))
        } else if tag == 6 {
            Some(Kind::Message(Shape::LoRaConfig))
        } else if tag == 7 {
            Some(Kind::Message(Shape::BluetoothConfig))
        } else if tag == 8 {
            Some(Kind::Plain(Scalar::Uint32))
        } else if tag == 9 {
            Some(Kind::Message(Shape::SecurityConfig))
        } else {
            None
        },
        Shape::LocalModuleConfig => if tag == 1 {
            Some(Kind::Message(Shape::MqttConfig))
        } else if tag == 2 {
            Some(Kind::Message(Shape::SerialConfig))
        } else if tag == 3 {
            Some(Kind::Message(Shape::ExternalNotificationConfig))
        } else if tag == 4 {
            Some(Kind::Message(Shape::StoreForwardConfig))
        } else if tag == 5 {
            Some(Kind::Message(Shape::RangeTestConfig))
        } else if tag == 6 {
            Some(Kind::Message(Shape::TelemetryConfig))
        } else if tag == 7 {
            Some(Kind::Message(Shape::CannedMessageConfig))
        } else if tag == 8 {
            Some(Kind::Plain(Scalar::Uint32))
        } else if tag == 9 {
            Some(Kind::Message(Shape::AudioConfig))
        } else if tag == 10 {
            Some(Kind::Message(Shape::RemoteHardwareConfig))
        } else if tag == 11 {
            Some(Kind::Message(Shape::NeighborInfoConfig))
        } else if tag == 12 {
            Some(Kind::Message(Shape::AmbientLightingConfig))
        } else if tag == 13 {
            Some(Kind::Message(Shape::DetectionSensorConfig))
        } else if tag == 14 {
            Some(Kind::Message(Shape::PaxcounterConfig))
        } else if tag == 15 {
            Some(Kind::Message(Shape::StatusMessageConfig))
        } else if tag == 16 {
            Some(Kind::Message(Shape::TrafficManagementConfig))
        } else {
            None
        },
        Shape::SessionkeyConfig => None,
    }
}

/// The place in which a field is written.
pub(crate) fn place_of(shape: Shape, tag: u32) -> (r: u32)
    ensures
        r == place(shape, tag),
{
    if shape == Shape::MeshPacket && tag == 5 {
        4
    } else {
        tag
    }
}

/// The shape of a section of the device configuration.
pub open spec fn section(number: u32) -> Option<Shape> {
    match number {
        1 => Some(Shape::DeviceConfig),
        2 => Some(Shape::PositionConfig),
        3 => Some(Shape::PowerConfig),
        4 => Some(Shape::NetworkConfig),
        5 => Some(Shape::DisplayConfig),
        6 => Some(Shape::LoRaConfig),
        7 => Some(Shape::BluetoothConfig),
        8 => Some(Shape::SecurityConfig),
        9 => Some(Shape::SessionkeyConfig),
        10 => Some(Shape::DeviceUiConfig),
        _ => None,
    }
}

/// The shape of a section of the module configuration.
pub open spec fn module_section(number: u32) -> Option<Shape> {
    match number {
        1 => Some(Shape::MqttConfig),
        2 => Some(Shape::SerialConfig),
        3 => Some(Shape::ExternalNotificationConfig),
        4 => Some(Shape::StoreForwardConfig),
        5 => Some(Shape::RangeTestConfig),
        6 => Some(Shape::TelemetryConfig),
        7 => Some(Shape::CannedMessageConfig),
        8 => Some(Shape::AudioConfig),
        9 => Some(Shape::RemoteHardwareConfig),
        10 => Some(Shape::NeighborInfoConfig),
        11 => Some(Shape::AmbientLightingConfig),
        12 => Some(Shape::DetectionSensorConfig),
        13 => Some(Shape::PaxcounterConfig),
        14 => Some(Shape::StatusMessageConfig),
        15 => Some(Shape::TrafficManagementConfig),
        _ => None,
    }
}

/// The shape of a section of the device configuration.
pub(crate) fn section_of(number: u32) -> (r: Option<Shape>)
    ensures
        r == section(number),
{
    match number {
        1 => Some(Shape::DeviceConfig),
        2 => Some(Shape::PositionConfig),
        3 => Some(Shape::PowerConfig),
        4 => Some(Shape::NetworkConfig),
        5 => Some(Shape::DisplayConfig),
        6 => Some(Shape::LoRaConfig),
        7 => Some(Shape::BluetoothConfig),
        8 => Some(Shape::SecurityConfig),
        9 => Some(Shape::SessionkeyConfig),
        10 => Some(Shape::DeviceUiConfig),
        _ => None,
    }
}

/// The shape of a section of the module configuration.
pub(crate) fn module_section_of(number: u32) -> (r: Option<Shape>)
    ensures
        r == module_section(number),
{
    match number {
        1 => Some(Shape::MqttConfig),
        2 => Some(Shape::SerialConfig),
        3 => Some(Shape::ExternalNotificationConfig),
        4 => Some(Shape::StoreForwardConfig),
        5 => Some(Shape::RangeTestConfig),
        6 => Some(Shape::TelemetryConfig),
        7 => Some(Shape::CannedMessageConfig),
        8 => Some(Shape::AudioConfig),
        9 => Some(Shape::RemoteHardwareConfig),
        10 => Some(Shape::NeighborInfoConfig),
        11 => Some(Shape::AmbientLightingConfig),
        12 => Some(Shape::DetectionSensorConfig),
        13 => Some(Shape::PaxcounterConfig),
        14 => Some(Shape::StatusMessageConfig),
        15 => Some(Shape::TrafficManagementConfig),
        _ => None,
    }
}

} // verus!
