//! The numbers of fields on the wire.
//!
//! Both ends of a link have to agree on which number stands for which field. Each law
//! here says of one message what one more field makes of it: `fs` are fields that read
//! as the message `m`, and the field that comes behind them sets what its number stands
//! for and leaves the rest as it was. A field of another wire type is refused, and a
//! number that stands for nothing is passed over. That a message is written under the
//! same numbers follows, since what is written reads back.

use crate::held;
use crate::message::{self, Message};
use crate::proto::channel::{
    Channel, ChannelFile, ChannelFileOf, ChannelFileView, ChannelOf, ChannelSettings,
    ChannelSettingsOf, ChannelSettingsView, ChannelView, ModuleSettings,
};
use crate::proto::config::{
    Config, ModuleConfig,
};
use crate::proto::node::{
    DeviceMetadata, DeviceMetadataOf, DeviceMetadataView, MyNodeInfo, MyNodeInfoOf,
    MyNodeInfoView, NodeDatabase, NodeDatabaseOf, NodeDatabaseView, NodeInfo, NodeInfoLite,
    NodeInfoLiteOf, NodeInfoLiteView, NodeInfoOf, NodeInfoView, User, UserLite, UserLiteOf,
    UserLiteView, UserOf, UserView,
};
use crate::proto::packet::{
    Data, DataOf, DataView, MeshPacket, MeshPacketOf, MeshPacketView, PayloadVariantOf, Routing,
    RoutingOf, RoutingVariantOf, RoutingView,
};
use crate::proto::phone::{
    FromRadio, FromRadioOf, FromRadioVariantOf, FromRadioView, Heartbeat, LogRecord, LogRecordOf,
    LogRecordView, MqttClientProxyMessage, MqttClientProxyMessageOf, MqttClientProxyMessageView,
    MqttPayloadOf, QueueStatus, ToRadio, ToRadioOf, ToRadioVariantOf, ToRadioView, XModem,
    XModemOf, XModemView,
};
use crate::shape::Shape;
use crate::text;
use crate::wire::{self, FieldOf, FieldView, WireValueOf, NESTING};
use vstd::prelude::*;

verus! {

/// A field that holds a number.
pub open spec fn number(tag: u32, v: u64) -> FieldView {
    FieldOf { tag, value: WireValueOf::Varint(v) }
}

/// A field that holds four bytes.
pub open spec fn word(tag: u32, v: u32) -> FieldView {
    FieldOf { tag, value: WireValueOf::Fixed32(v) }
}

/// A field that holds a byte string.
pub open spec fn chunk(tag: u32, b: Seq<u8>) -> FieldView {
    FieldOf { tag, value: WireValueOf::Bytes(b) }
}

/// What the bytes of fields with one more field behind them are read as.
pub open spec fn behind<M: Message>(fs: Seq<FieldView>, f: FieldView) -> Option<M::V> {
    message::decoded::<M>(wire::fields_bytes(fs) + wire::field_bytes(f))
}

/// The low 32 bits of a number.
pub open spec fn low32(v: u64) -> u32 {
    (v % 0x1_0000_0000) as u32
}

/// The low 32 bits of a number, with the highest of them for the sign.
pub open spec fn signed32(v: u64) -> i32 {
    if v % 0x1_0000_0000 >= 0x8000_0000 {
        (v % 0x1_0000_0000 - 0x1_0000_0000) as i32
    } else {
        (v % 0x1_0000_0000) as i32
    }
}

proof fn lemma_behind<M: Message>(fs: Seq<FieldView>, m: M::V, f: FieldView)
    requires
        wire::all_encodable(fs),
        wire::encodable(f),
        message::decoded::<M>(wire::fields_bytes(fs)) == Some(m),
    ensures
        behind::<M>(fs, f) == M::merged(m, f, NESTING as nat),
        fs.len() == 0 ==> m == M::blank(),
{
    reveal(message::merged_bytes);
    wire::lemma_fields_bytes_push(fs, f);
    wire::lemma_parse_of_encode(fs, NESTING as nat);
    wire::lemma_parse_of_encode(fs.push(f), NESTING as nat);
    assert(fs.push(f).drop_last() =~= fs);
}

/// The field numbers of the payload of a packet.
pub proof fn lemma_data_layout(
    fs: Seq<FieldView>,
    m: DataView,
    f: FieldView,
    v: u64,
    b: Seq<u8>,
    x: u32,
)
    requires
        wire::all_encodable(fs),
        message::decoded::<Data>(wire::fields_bytes(fs)) == Some(m),
        wire::encodable(f),
        b.len() <= u64::MAX,
    ensures
        fs.len() == 0 ==> m == (DataView {
            portnum: 0,
            payload: Seq::empty(),
            want_response: false,
            dest: 0,
            source: 0,
            request_id: 0,
            reply_id: 0,
            emoji: 0,
            bitfield: None,
        }),
        behind::<Data>(fs, number(1, v)) == Some(
            DataOf { portnum: signed32(v), ..m },
        ),
        behind::<Data>(fs, chunk(2, b)) == Some(
            DataOf { payload: b, ..m },
        ),
        behind::<Data>(fs, number(3, v)) == Some(
            DataOf { want_response: v != 0, ..m },
        ),
        behind::<Data>(fs, word(4, x)) == Some(
            DataOf { dest: x, ..m },
        ),
        behind::<Data>(fs, word(5, x)) == Some(
            DataOf { source: x, ..m },
        ),
        behind::<Data>(fs, word(6, x)) == Some(
            DataOf { request_id: x, ..m },
        ),
        behind::<Data>(fs, word(7, x)) == Some(
            DataOf { reply_id: x, ..m },
        ),
        behind::<Data>(fs, word(8, x)) == Some(
            DataOf { emoji: x, ..m },
        ),
        behind::<Data>(fs, number(9, v)) == Some(
            DataOf { bitfield: Some(low32(v)), ..m },
        ),
        f.tag == 1 && f.value !is Varint ==> behind::<Data>(fs, f) is None,
        f.tag == 2 && f.value !is Bytes ==> behind::<Data>(fs, f) is None,
        f.tag == 3 && f.value !is Varint ==> behind::<Data>(fs, f) is None,
        f.tag == 4 && f.value !is Fixed32 ==> behind::<Data>(fs, f) is None,
        f.tag == 5 && f.value !is Fixed32 ==> behind::<Data>(fs, f) is None,
        f.tag == 6 && f.value !is Fixed32 ==> behind::<Data>(fs, f) is None,
        f.tag == 7 && f.value !is Fixed32 ==> behind::<Data>(fs, f) is None,
        f.tag == 8 && f.value !is Fixed32 ==> behind::<Data>(fs, f) is None,
        f.tag == 9 && f.value !is Varint ==> behind::<Data>(fs, f) is None,
        f.tag != 1
            && f.tag != 2
            && f.tag != 3
            && f.tag != 4
            && f.tag != 5
            && f.tag != 6
            && f.tag != 7
            && f.tag != 8
            && f.tag != 9 ==> behind::<Data>(fs, f) == Some(m),
{
    lemma_behind::<Data>(fs, m, number(1, v));
    lemma_behind::<Data>(fs, m, chunk(2, b));
    lemma_behind::<Data>(fs, m, number(3, v));
    lemma_behind::<Data>(fs, m, word(4, x));
    lemma_behind::<Data>(fs, m, word(5, x));
    lemma_behind::<Data>(fs, m, word(6, x));
    lemma_behind::<Data>(fs, m, word(7, x));
    lemma_behind::<Data>(fs, m, word(8, x));
    lemma_behind::<Data>(fs, m, number(9, v));
    lemma_behind::<Data>(fs, m, f);
}

/// The field numbers of a packet.
pub proof fn lemma_mesh_packet_layout(
    fs: Seq<FieldView>,
    m: MeshPacketView,
    f: FieldView,
    x: u32,
    v: u64,
    b: Seq<u8>,
)
    requires
        wire::all_encodable(fs),
        message::decoded::<MeshPacket>(wire::fields_bytes(fs)) == Some(m),
        wire::encodable(f),
        b.len() <= u64::MAX,
    ensures
        fs.len() == 0 ==> m == (MeshPacketView {
            from: 0,
            to: 0,
            channel: 0,
            payload_variant: None,
            id: 0,
            rx_time: 0,
            rx_snr: 0,
            hop_limit: 0,
            want_ack: false,
            priority: 0,
            rx_rssi: 0,
            delayed: 0,
            via_mqtt: false,
            hop_start: 0,
            public_key: Seq::empty(),
            pki_encrypted: false,
            next_hop: 0,
            relay_node: 0,
            tx_after: 0,
            transport_mechanism: 0,
        }),
        behind::<MeshPacket>(fs, word(1, x)) == Some(
            MeshPacketOf { from: x, ..m },
        ),
        behind::<MeshPacket>(fs, word(2, x)) == Some(
            MeshPacketOf { to: x, ..m },
        ),
        behind::<MeshPacket>(fs, number(3, v)) == Some(
            MeshPacketOf { channel: low32(v), ..m },
        ),
        !(m.payload_variant matches Some(PayloadVariantOf::Decoded(_)))
            ==> behind::<MeshPacket>(fs, chunk(4, b))
            == match message::decoded_within::<Data>(b, 99) {
            Some(x) => Some(
                MeshPacketOf { payload_variant: Some(PayloadVariantOf::Decoded(x)), ..m },
            ),
            None => None,
        },
        m.payload_variant matches Some(PayloadVariantOf::Decoded(old))
            ==> behind::<MeshPacket>(fs, chunk(4, b))
            == match message::merged_bytes::<Data>(old, b, 99) {
            Some(x) => Some(
                MeshPacketOf { payload_variant: Some(PayloadVariantOf::Decoded(x)), ..m },
            ),
            None => None,
        },
        behind::<MeshPacket>(fs, chunk(5, b)) == Some(
            MeshPacketOf { payload_variant: Some(PayloadVariantOf::Encrypted(b)), ..m },
        ),
        behind::<MeshPacket>(fs, word(6, x)) == Some(
            MeshPacketOf { id: x, ..m },
        ),
        behind::<MeshPacket>(fs, word(7, x)) == Some(
            MeshPacketOf { rx_time: x, ..m },
        ),
        behind::<MeshPacket>(fs, word(8, x)) == Some(
            MeshPacketOf { rx_snr: x, ..m },
        ),
        behind::<MeshPacket>(fs, number(9, v)) == Some(
            MeshPacketOf { hop_limit: low32(v), ..m },
        ),
        behind::<MeshPacket>(fs, number(10, v)) == Some(
            MeshPacketOf { want_ack: v != 0, ..m },
        ),
        behind::<MeshPacket>(fs, number(11, v)) == Some(
            MeshPacketOf { priority: signed32(v), ..m },
        ),
        behind::<MeshPacket>(fs, number(12, v)) == Some(
            MeshPacketOf { rx_rssi: signed32(v), ..m },
        ),
        behind::<MeshPacket>(fs, number(13, v)) == Some(
            MeshPacketOf { delayed: signed32(v), ..m },
        ),
        behind::<MeshPacket>(fs, number(14, v)) == Some(
            MeshPacketOf { via_mqtt: v != 0, ..m },
        ),
        behind::<MeshPacket>(fs, number(15, v)) == Some(
            MeshPacketOf { hop_start: low32(v), ..m },
        ),
        behind::<MeshPacket>(fs, chunk(16, b)) == Some(
            MeshPacketOf { public_key: b, ..m },
        ),
        behind::<MeshPacket>(fs, number(17, v)) == Some(
            MeshPacketOf { pki_encrypted: v != 0, ..m },
        ),
        behind::<MeshPacket>(fs, number(18, v)) == Some(
            MeshPacketOf { next_hop: low32(v), ..m },
        ),
        behind::<MeshPacket>(fs, number(19, v)) == Some(
            MeshPacketOf { relay_node: low32(v), ..m },
        ),
        behind::<MeshPacket>(fs, number(20, v)) == Some(
            MeshPacketOf { tx_after: low32(v), ..m },
        ),
        behind::<MeshPacket>(fs, number(21, v)) == Some(
            MeshPacketOf { transport_mechanism: signed32(v), ..m },
        ),
        f.tag == 1 && f.value !is Fixed32 ==> behind::<MeshPacket>(fs, f) is None,
        f.tag == 2 && f.value !is Fixed32 ==> behind::<MeshPacket>(fs, f) is None,
        f.tag == 3 && f.value !is Varint ==> behind::<MeshPacket>(fs, f) is None,
        f.tag == 4 && f.value !is Bytes ==> behind::<MeshPacket>(fs, f) is None,
        f.tag == 5 && f.value !is Bytes ==> behind::<MeshPacket>(fs, f) is None,
        f.tag == 6 && f.value !is Fixed32 ==> behind::<MeshPacket>(fs, f) is None,
        f.tag == 7 && f.value !is Fixed32 ==> behind::<MeshPacket>(fs, f) is None,
        f.tag == 8 && f.value !is Fixed32 ==> behind::<MeshPacket>(fs, f) is None,
        f.tag == 9 && f.value !is Varint ==> behind::<MeshPacket>(fs, f) is None,
        f.tag == 10 && f.value !is Varint ==> behind::<MeshPacket>(fs, f) is None,
        f.tag == 11 && f.value !is Varint ==> behind::<MeshPacket>(fs, f) is None,
        f.tag == 12 && f.value !is Varint ==> behind::<MeshPacket>(fs, f) is None,
        f.tag == 13 && f.value !is Varint ==> behind::<MeshPacket>(fs, f) is None,
        f.tag == 14 && f.value !is Varint ==> behind::<MeshPacket>(fs, f) is None,
        f.tag == 15 && f.value !is Varint ==> behind::<MeshPacket>(fs, f) is None,
        f.tag == 16 && f.value !is Bytes ==> behind::<MeshPacket>(fs, f) is None,
        f.tag == 17 && f.value !is Varint ==> behind::<MeshPacket>(fs, f) is None,
        f.tag == 18 && f.value !is Varint ==> behind::<MeshPacket>(fs, f) is None,
        f.tag == 19 && f.value !is Varint ==> behind::<MeshPacket>(fs, f) is None,
        f.tag == 20 && f.value !is Varint ==> behind::<MeshPacket>(fs, f) is None,
        f.tag == 21 && f.value !is Varint ==> behind::<MeshPacket>(fs, f) is None,
        f.tag != 1
            && f.tag != 2
            && f.tag != 3
            && f.tag != 4
            && f.tag != 5
            && f.tag != 6
            && f.tag != 7
            && f.tag != 8
            && f.tag != 9
            && f.tag != 10
            && f.tag != 11
            && f.tag != 12
            && f.tag != 13
            && f.tag != 14
            && f.tag != 15
            && f.tag != 16
            && f.tag != 17
            && f.tag != 18
            && f.tag != 19
            && f.tag != 20
            && f.tag != 21 ==> behind::<MeshPacket>(fs, f) == Some(m),
{
    lemma_behind::<MeshPacket>(fs, m, word(1, x));
    lemma_behind::<MeshPacket>(fs, m, word(2, x));
    lemma_behind::<MeshPacket>(fs, m, number(3, v));
    lemma_behind::<MeshPacket>(fs, m, chunk(4, b));
    lemma_behind::<MeshPacket>(fs, m, chunk(5, b));
    lemma_behind::<MeshPacket>(fs, m, word(6, x));
    lemma_behind::<MeshPacket>(fs, m, word(7, x));
    lemma_behind::<MeshPacket>(fs, m, word(8, x));
    lemma_behind::<MeshPacket>(fs, m, number(9, v));
    lemma_behind::<MeshPacket>(fs, m, number(10, v));
    lemma_behind::<MeshPacket>(fs, m, number(11, v));
    lemma_behind::<MeshPacket>(fs, m, number(12, v));
    lemma_behind::<MeshPacket>(fs, m, number(13, v));
    lemma_behind::<MeshPacket>(fs, m, number(14, v));
    lemma_behind::<MeshPacket>(fs, m, number(15, v));
    lemma_behind::<MeshPacket>(fs, m, chunk(16, b));
    lemma_behind::<MeshPacket>(fs, m, number(17, v));
    lemma_behind::<MeshPacket>(fs, m, number(18, v));
    lemma_behind::<MeshPacket>(fs, m, number(19, v));
    lemma_behind::<MeshPacket>(fs, m, number(20, v));
    lemma_behind::<MeshPacket>(fs, m, number(21, v));
    lemma_behind::<MeshPacket>(fs, m, f);
}

/// The field numbers of a routing message.
pub proof fn lemma_routing_layout(
    fs: Seq<FieldView>,
    m: RoutingView,
    f: FieldView,
    b: Seq<u8>,
    v: u64,
)
    requires
        wire::all_encodable(fs),
        message::decoded::<Routing>(wire::fields_bytes(fs)) == Some(m),
        wire::encodable(f),
        b.len() <= u64::MAX,
    ensures
        fs.len() == 0 ==> m == (RoutingView {
            variant: None,
        }),
        !(m.variant matches Some(RoutingVariantOf::RouteRequest(_)))
            ==> behind::<Routing>(fs, chunk(1, b))
            == match held::held(Shape::RouteDiscovery, Seq::empty(), b, 99) {
            Some(x) => Some(RoutingOf { variant: Some(RoutingVariantOf::RouteRequest(x)), ..m }),
            None => None,
        },
        m.variant matches Some(RoutingVariantOf::RouteRequest(old))
            ==> behind::<Routing>(fs, chunk(1, b))
            == match held::held(Shape::RouteDiscovery, old, b, 99) {
            Some(x) => Some(RoutingOf { variant: Some(RoutingVariantOf::RouteRequest(x)), ..m }),
            None => None,
        },
        !(m.variant matches Some(RoutingVariantOf::RouteReply(_)))
            ==> behind::<Routing>(fs, chunk(2, b))
            == match held::held(Shape::RouteDiscovery, Seq::empty(), b, 99) {
            Some(x) => Some(RoutingOf { variant: Some(RoutingVariantOf::RouteReply(x)), ..m }),
            None => None,
        },
        m.variant matches Some(RoutingVariantOf::RouteReply(old))
            ==> behind::<Routing>(fs, chunk(2, b))
            == match held::held(Shape::RouteDiscovery, old, b, 99) {
            Some(x) => Some(RoutingOf { variant: Some(RoutingVariantOf::RouteReply(x)), ..m }),
            None => None,
        },
        behind::<Routing>(fs, number(3, v)) == Some(
            RoutingOf { variant: Some(RoutingVariantOf::ErrorReason(signed32(v))), ..m },
        ),
        f.tag == 1 && f.value !is Bytes ==> behind::<Routing>(fs, f) is None,
        f.tag == 2 && f.value !is Bytes ==> behind::<Routing>(fs, f) is None,
        f.tag == 3 && f.value !is Varint ==> behind::<Routing>(fs, f) is None,
        f.tag != 1
            && f.tag != 2
            && f.tag != 3 ==> behind::<Routing>(fs, f) == Some(m),
{
    lemma_behind::<Routing>(fs, m, chunk(1, b));
    lemma_behind::<Routing>(fs, m, chunk(2, b));
    lemma_behind::<Routing>(fs, m, number(3, v));
    lemma_behind::<Routing>(fs, m, f);
}

/// The field numbers of a user.
pub proof fn lemma_user_layout(
    fs: Seq<FieldView>,
    m: UserView,
    f: FieldView,
    b: Seq<u8>,
    s: Seq<char>,
    v: u64,
)
    requires
        wire::all_encodable(fs),
        message::decoded::<User>(wire::fields_bytes(fs)) == Some(m),
        wire::encodable(f),
        b.len() <= u64::MAX,
        text::utf8(s).len() <= u64::MAX,
    ensures
        fs.len() == 0 ==> m == (UserView {
            id: Seq::empty(),
            long_name: Seq::empty(),
            short_name: Seq::empty(),
            macaddr: Seq::empty(),
            hw_model: 0,
            is_licensed: false,
            role: 0,
            public_key: Seq::empty(),
            is_unmessagable: None,
        }),
        behind::<User>(fs, chunk(1, text::utf8(s))) == Some(
            UserOf { id: s, ..m },
        ),
        text::utf8_decoded(b) is None ==> behind::<User>(fs, chunk(1, b)) is None,
        behind::<User>(fs, chunk(2, text::utf8(s))) == Some(
            UserOf { long_name: s, ..m },
        ),
        text::utf8_decoded(b) is None ==> behind::<User>(fs, chunk(2, b)) is None,
        behind::<User>(fs, chunk(3, text::utf8(s))) == Some(
            UserOf { short_name: s, ..m },
        ),
        text::utf8_decoded(b) is None ==> behind::<User>(fs, chunk(3, b)) is None,
        behind::<User>(fs, chunk(4, b)) == Some(
            UserOf { macaddr: b, ..m },
        ),
        behind::<User>(fs, number(5, v)) == Some(
            UserOf { hw_model: signed32(v), ..m },
        ),
        behind::<User>(fs, number(6, v)) == Some(
            UserOf { is_licensed: v != 0, ..m },
        ),
        behind::<User>(fs, number(7, v)) == Some(
            UserOf { role: signed32(v), ..m },
        ),
        behind::<User>(fs, chunk(8, b)) == Some(
            UserOf { public_key: b, ..m },
        ),
        behind::<User>(fs, number(9, v)) == Some(
            UserOf { is_unmessagable: Some(v != 0), ..m },
        ),
        f.tag == 1 && f.value !is Bytes ==> behind::<User>(fs, f) is None,
        f.tag == 2 && f.value !is Bytes ==> behind::<User>(fs, f) is None,
        f.tag == 3 && f.value !is Bytes ==> behind::<User>(fs, f) is None,
        f.tag == 4 && f.value !is Bytes ==> behind::<User>(fs, f) is None,
        f.tag == 5 && f.value !is Varint ==> behind::<User>(fs, f) is None,
        f.tag == 6 && f.value !is Varint ==> behind::<User>(fs, f) is None,
        f.tag == 7 && f.value !is Varint ==> behind::<User>(fs, f) is None,
        f.tag == 8 && f.value !is Bytes ==> behind::<User>(fs, f) is None,
        f.tag == 9 && f.value !is Varint ==> behind::<User>(fs, f) is None,
        f.tag != 1
            && f.tag != 2
            && f.tag != 3
            && f.tag != 4
            && f.tag != 5
            && f.tag != 6
            && f.tag != 7
            && f.tag != 8
            && f.tag != 9 ==> behind::<User>(fs, f) == Some(m),
{
    text::lemma_utf8(s);
    lemma_behind::<User>(fs, m, chunk(1, text::utf8(s)));
    lemma_behind::<User>(fs, m, chunk(1, b));
    lemma_behind::<User>(fs, m, chunk(2, text::utf8(s)));
    lemma_behind::<User>(fs, m, chunk(2, b));
    lemma_behind::<User>(fs, m, chunk(3, text::utf8(s)));
    lemma_behind::<User>(fs, m, chunk(3, b));
    lemma_behind::<User>(fs, m, chunk(4, b));
    lemma_behind::<User>(fs, m, number(5, v));
    lemma_behind::<User>(fs, m, number(6, v));
    lemma_behind::<User>(fs, m, number(7, v));
    lemma_behind::<User>(fs, m, chunk(8, b));
    lemma_behind::<User>(fs, m, number(9, v));
    lemma_behind::<User>(fs, m, f);
}

/// The field numbers of a user in the node database.
pub proof fn lemma_user_lite_layout(
    fs: Seq<FieldView>,
    m: UserLiteView,
    f: FieldView,
    b: Seq<u8>,
    s: Seq<char>,
    v: u64,
)
    requires
        wire::all_encodable(fs),
        message::decoded::<UserLite>(wire::fields_bytes(fs)) == Some(m),
        wire::encodable(f),
        b.len() <= u64::MAX,
        text::utf8(s).len() <= u64::MAX,
    ensures
        fs.len() == 0 ==> m == (UserLiteView {
            macaddr: Seq::empty(),
            long_name: Seq::empty(),
            short_name: Seq::empty(),
            hw_model: 0,
            is_licensed: false,
            role: 0,
            public_key: Seq::empty(),
            is_unmessagable: None,
        }),
        behind::<UserLite>(fs, chunk(1, b)) == Some(
            UserLiteOf { macaddr: b, ..m },
        ),
        behind::<UserLite>(fs, chunk(2, text::utf8(s))) == Some(
            UserLiteOf { long_name: s, ..m },
        ),
        text::utf8_decoded(b) is None ==> behind::<UserLite>(fs, chunk(2, b)) is None,
        behind::<UserLite>(fs, chunk(3, text::utf8(s))) == Some(
            UserLiteOf { short_name: s, ..m },
        ),
        text::utf8_decoded(b) is None ==> behind::<UserLite>(fs, chunk(3, b)) is None,
        behind::<UserLite>(fs, number(4, v)) == Some(
            UserLiteOf { hw_model: signed32(v), ..m },
        ),
        behind::<UserLite>(fs, number(5, v)) == Some(
            UserLiteOf { is_licensed: v != 0, ..m },
        ),
        behind::<UserLite>(fs, number(6, v)) == Some(
            UserLiteOf { role: signed32(v), ..m },
        ),
        behind::<UserLite>(fs, chunk(7, b)) == Some(
            UserLiteOf { public_key: b, ..m },
        ),
        behind::<UserLite>(fs, number(9, v)) == Some(
            UserLiteOf { is_unmessagable: Some(v != 0), ..m },
        ),
        f.tag == 1 && f.value !is Bytes ==> behind::<UserLite>(fs, f) is None,
        f.tag == 2 && f.value !is Bytes ==> behind::<UserLite>(fs, f) is None,
        f.tag == 3 && f.value !is Bytes ==> behind::<UserLite>(fs, f) is None,
        f.tag == 4 && f.value !is Varint ==> behind::<UserLite>(fs, f) is None,
        f.tag == 5 && f.value !is Varint ==> behind::<UserLite>(fs, f) is None,
        f.tag == 6 && f.value !is Varint ==> behind::<UserLite>(fs, f) is None,
        f.tag == 7 && f.value !is Bytes ==> behind::<UserLite>(fs, f) is None,
        f.tag == 9 && f.value !is Varint ==> behind::<UserLite>(fs, f) is None,
        f.tag != 1
            && f.tag != 2
            && f.tag != 3
            && f.tag != 4
            && f.tag != 5
            && f.tag != 6
            && f.tag != 7
            && f.tag != 9 ==> behind::<UserLite>(fs, f) == Some(m),
{
    text::lemma_utf8(s);
    lemma_behind::<UserLite>(fs, m, chunk(1, b));
    lemma_behind::<UserLite>(fs, m, chunk(2, text::utf8(s)));
    lemma_behind::<UserLite>(fs, m, chunk(2, b));
    lemma_behind::<UserLite>(fs, m, chunk(3, text::utf8(s)));
    lemma_behind::<UserLite>(fs, m, chunk(3, b));
    lemma_behind::<UserLite>(fs, m, number(4, v));
    lemma_behind::<UserLite>(fs, m, number(5, v));
    lemma_behind::<UserLite>(fs, m, number(6, v));
    lemma_behind::<UserLite>(fs, m, chunk(7, b));
    lemma_behind::<UserLite>(fs, m, number(9, v));
    lemma_behind::<UserLite>(fs, m, f);
}

/// The field numbers of a node in the node database.
pub proof fn lemma_node_info_lite_layout(
    fs: Seq<FieldView>,
    m: NodeInfoLiteView,
    f: FieldView,
    v: u64,
    b: Seq<u8>,
    x: u32,
)
    requires
        wire::all_encodable(fs),
        message::decoded::<NodeInfoLite>(wire::fields_bytes(fs)) == Some(m),
        wire::encodable(f),
        b.len() <= u64::MAX,
    ensures
        fs.len() == 0 ==> m == (NodeInfoLiteView {
            num: 0,
            user: None,
            position: None,
            snr: 0,
            last_heard: 0,
            device_metrics: None,
            channel: 0,
            via_mqtt: false,
            hops_away: None,
            is_favorite: false,
            is_ignored: false,
            next_hop: 0,
            bitfield: 0,
        }),
        behind::<NodeInfoLite>(fs, number(1, v)) == Some(
            NodeInfoLiteOf { num: low32(v), ..m },
        ),
        m.user is None
            ==> behind::<NodeInfoLite>(fs, chunk(2, b))
            == match message::decoded_within::<UserLite>(b, 99) {
            Some(x) => Some(NodeInfoLiteOf { user: Some(x), ..m }),
            None => None,
        },
        m.user matches Some(old)
            ==> behind::<NodeInfoLite>(fs, chunk(2, b))
            == match message::merged_bytes::<UserLite>(old, b, 99) {
            Some(x) => Some(NodeInfoLiteOf { user: Some(x), ..m }),
            None => None,
        },
        m.position is None
            ==> behind::<NodeInfoLite>(fs, chunk(3, b))
            == match held::held(Shape::PositionLite, Seq::empty(), b, 99) {
            Some(x) => Some(NodeInfoLiteOf { position: Some(x), ..m }),
            None => None,
        },
        m.position matches Some(old)
            ==> behind::<NodeInfoLite>(fs, chunk(3, b))
            == match held::held(Shape::PositionLite, old, b, 99) {
            Some(x) => Some(NodeInfoLiteOf { position: Some(x), ..m }),
            None => None,
        },
        behind::<NodeInfoLite>(fs, word(4, x)) == Some(
            NodeInfoLiteOf { snr: x, ..m },
        ),
        behind::<NodeInfoLite>(fs, word(5, x)) == Some(
            NodeInfoLiteOf { last_heard: x, ..m },
        ),
        m.device_metrics is None
            ==> behind::<NodeInfoLite>(fs, chunk(6, b))
            == match held::held(Shape::DeviceMetrics, Seq::empty(), b, 99) {
            Some(x) => Some(NodeInfoLiteOf { device_metrics: Some(x), ..m }),
            None => None,
        },
        m.device_metrics matches Some(old)
            ==> behind::<NodeInfoLite>(fs, chunk(6, b))
            == match held::held(Shape::DeviceMetrics, old, b, 99) {
            Some(x) => Some(NodeInfoLiteOf { device_metrics: Some(x), ..m }),
            None => None,
        },
        behind::<NodeInfoLite>(fs, number(7, v)) == Some(
            NodeInfoLiteOf { channel: low32(v), ..m },
        ),
        behind::<NodeInfoLite>(fs, number(8, v)) == Some(
            NodeInfoLiteOf { via_mqtt: v != 0, ..m },
        ),
        behind::<NodeInfoLite>(fs, number(9, v)) == Some(
            NodeInfoLiteOf { hops_away: Some(low32(v)), ..m },
        ),
        behind::<NodeInfoLite>(fs, number(10, v)) == Some(
            NodeInfoLiteOf { is_favorite: v != 0, ..m },
        ),
        behind::<NodeInfoLite>(fs, number(11, v)) == Some(
            NodeInfoLiteOf { is_ignored: v != 0, ..m },
        ),
        behind::<NodeInfoLite>(fs, number(12, v)) == Some(
            NodeInfoLiteOf { next_hop: low32(v), ..m },
        ),
        behind::<NodeInfoLite>(fs, number(13, v)) == Some(
            NodeInfoLiteOf { bitfield: low32(v), ..m },
        ),
        f.tag == 1 && f.value !is Varint ==> behind::<NodeInfoLite>(fs, f) is None,
        f.tag == 2 && f.value !is Bytes ==> behind::<NodeInfoLite>(fs, f) is None,
        f.tag == 3 && f.value !is Bytes ==> behind::<NodeInfoLite>(fs, f) is None,
        f.tag == 4 && f.value !is Fixed32 ==> behind::<NodeInfoLite>(fs, f) is None,
        f.tag == 5 && f.value !is Fixed32 ==> behind::<NodeInfoLite>(fs, f) is None,
        f.tag == 6 && f.value !is Bytes ==> behind::<NodeInfoLite>(fs, f) is None,
        f.tag == 7 && f.value !is Varint ==> behind::<NodeInfoLite>(fs, f) is None,
        f.tag == 8 && f.value !is Varint ==> behind::<NodeInfoLite>(fs, f) is None,
        f.tag == 9 && f.value !is Varint ==> behind::<NodeInfoLite>(fs, f) is None,
        f.tag == 10 && f.value !is Varint ==> behind::<NodeInfoLite>(fs, f) is None,
        f.tag == 11 && f.value !is Varint ==> behind::<NodeInfoLite>(fs, f) is None,
        f.tag == 12 && f.value !is Varint ==> behind::<NodeInfoLite>(fs, f) is None,
        f.tag == 13 && f.value !is Varint ==> behind::<NodeInfoLite>(fs, f) is None,
        f.tag != 1
            && f.tag != 2
            && f.tag != 3
            && f.tag != 4
            && f.tag != 5
            && f.tag != 6
            && f.tag != 7
            && f.tag != 8
            && f.tag != 9
            && f.tag != 10
            && f.tag != 11
            && f.tag != 12
            && f.tag != 13 ==> behind::<NodeInfoLite>(fs, f) == Some(m),
{
    lemma_behind::<NodeInfoLite>(fs, m, number(1, v));
    lemma_behind::<NodeInfoLite>(fs, m, chunk(2, b));
    lemma_behind::<NodeInfoLite>(fs, m, chunk(3, b));
    lemma_behind::<NodeInfoLite>(fs, m, word(4, x));
    lemma_behind::<NodeInfoLite>(fs, m, word(5, x));
    lemma_behind::<NodeInfoLite>(fs, m, chunk(6, b));
    lemma_behind::<NodeInfoLite>(fs, m, number(7, v));
    lemma_behind::<NodeInfoLite>(fs, m, number(8, v));
    lemma_behind::<NodeInfoLite>(fs, m, number(9, v));
    lemma_behind::<NodeInfoLite>(fs, m, number(10, v));
    lemma_behind::<NodeInfoLite>(fs, m, number(11, v));
    lemma_behind::<NodeInfoLite>(fs, m, number(12, v));
    lemma_behind::<NodeInfoLite>(fs, m, number(13, v));
    lemma_behind::<NodeInfoLite>(fs, m, f);
}

/// The field numbers of a node as the phone is told of it.
pub proof fn lemma_node_info_layout(
    fs: Seq<FieldView>,
    m: NodeInfoView,
    f: FieldView,
    v: u64,
    b: Seq<u8>,
    x: u32,
)
    requires
        wire::all_encodable(fs),
        message::decoded::<NodeInfo>(wire::fields_bytes(fs)) == Some(m),
        wire::encodable(f),
        b.len() <= u64::MAX,
    ensures
        fs.len() == 0 ==> m == (NodeInfoView {
            num: 0,
            user: None,
            position: None,
            snr: 0,
            last_heard: 0,
            device_metrics: None,
            channel: 0,
            via_mqtt: false,
            hops_away: None,
            is_favorite: false,
            is_ignored: false,
            is_key_manually_verified: false,
            is_muted: false,
        }),
        behind::<NodeInfo>(fs, number(1, v)) == Some(
            NodeInfoOf { num: low32(v), ..m },
        ),
        m.user is None
            ==> behind::<NodeInfo>(fs, chunk(2, b))
            == match message::decoded_within::<User>(b, 99) {
            Some(x) => Some(NodeInfoOf { user: Some(x), ..m }),
            None => None,
        },
        m.user matches Some(old)
            ==> behind::<NodeInfo>(fs, chunk(2, b))
            == match message::merged_bytes::<User>(old, b, 99) {
            Some(x) => Some(NodeInfoOf { user: Some(x), ..m }),
            None => None,
        },
        m.position is None
            ==> behind::<NodeInfo>(fs, chunk(3, b))
            == match held::held(Shape::Position, Seq::empty(), b, 99) {
            Some(x) => Some(NodeInfoOf { position: Some(x), ..m }),
            None => None,
        },
        m.position matches Some(old)
            ==> behind::<NodeInfo>(fs, chunk(3, b))
            == match held::held(Shape::Position, old, b, 99) {
            Some(x) => Some(NodeInfoOf { position: Some(x), ..m }),
            None => None,
        },
        behind::<NodeInfo>(fs, word(4, x)) == Some(
            NodeInfoOf { snr: x, ..m },
        ),
        behind::<NodeInfo>(fs, word(5, x)) == Some(
            NodeInfoOf { last_heard: x, ..m },
        ),
        m.device_metrics is None
            ==> behind::<NodeInfo>(fs, chunk(6, b))
            == match held::held(Shape::DeviceMetrics, Seq::empty(), b, 99) {
            Some(x) => Some(NodeInfoOf { device_metrics: Some(x), ..m }),
            None => None,
        },
        m.device_metrics matches Some(old)
            ==> behind::<NodeInfo>(fs, chunk(6, b))
            == match held::held(Shape::DeviceMetrics, old, b, 99) {
            Some(x) => Some(NodeInfoOf { device_metrics: Some(x), ..m }),
            None => None,
        },
        behind::<NodeInfo>(fs, number(7, v)) == Some(
            NodeInfoOf { channel: low32(v), ..m },
        ),
        behind::<NodeInfo>(fs, number(8, v)) == Some(
            NodeInfoOf { via_mqtt: v != 0, ..m },
        ),
        behind::<NodeInfo>(fs, number(9, v)) == Some(
            NodeInfoOf { hops_away: Some(low32(v)), ..m },
        ),
        behind::<NodeInfo>(fs, number(10, v)) == Some(
            NodeInfoOf { is_favorite: v != 0, ..m },
        ),
        behind::<NodeInfo>(fs, number(11, v)) == Some(
            NodeInfoOf { is_ignored: v != 0, ..m },
        ),
        behind::<NodeInfo>(fs, number(12, v)) == Some(
            NodeInfoOf { is_key_manually_verified: v != 0, ..m },
        ),
        behind::<NodeInfo>(fs, number(13, v)) == Some(
            NodeInfoOf { is_muted: v != 0, ..m },
        ),
        f.tag == 1 && f.value !is Varint ==> behind::<NodeInfo>(fs, f) is None,
        f.tag == 2 && f.value !is Bytes ==> behind::<NodeInfo>(fs, f) is None,
        f.tag == 3 && f.value !is Bytes ==> behind::<NodeInfo>(fs, f) is None,
        f.tag == 4 && f.value !is Fixed32 ==> behind::<NodeInfo>(fs, f) is None,
        f.tag == 5 && f.value !is Fixed32 ==> behind::<NodeInfo>(fs, f) is None,
        f.tag == 6 && f.value !is Bytes ==> behind::<NodeInfo>(fs, f) is None,
        f.tag == 7 && f.value !is Varint ==> behind::<NodeInfo>(fs, f) is None,
        f.tag == 8 && f.value !is Varint ==> behind::<NodeInfo>(fs, f) is None,
        f.tag == 9 && f.value !is Varint ==> behind::<NodeInfo>(fs, f) is None,
        f.tag == 10 && f.value !is Varint ==> behind::<NodeInfo>(fs, f) is None,
        f.tag == 11 && f.value !is Varint ==> behind::<NodeInfo>(fs, f) is None,
        f.tag == 12 && f.value !is Varint ==> behind::<NodeInfo>(fs, f) is None,
        f.tag == 13 && f.value !is Varint ==> behind::<NodeInfo>(fs, f) is None,
        f.tag != 1
            && f.tag != 2
            && f.tag != 3
            && f.tag != 4
            && f.tag != 5
            && f.tag != 6
            && f.tag != 7
            && f.tag != 8
            && f.tag != 9
            && f.tag != 10
            && f.tag != 11
            && f.tag != 12
            && f.tag != 13 ==> behind::<NodeInfo>(fs, f) == Some(m),
{
    lemma_behind::<NodeInfo>(fs, m, number(1, v));
    lemma_behind::<NodeInfo>(fs, m, chunk(2, b));
    lemma_behind::<NodeInfo>(fs, m, chunk(3, b));
    lemma_behind::<NodeInfo>(fs, m, word(4, x));
    lemma_behind::<NodeInfo>(fs, m, word(5, x));
    lemma_behind::<NodeInfo>(fs, m, chunk(6, b));
    lemma_behind::<NodeInfo>(fs, m, number(7, v));
    lemma_behind::<NodeInfo>(fs, m, number(8, v));
    lemma_behind::<NodeInfo>(fs, m, number(9, v));
    lemma_behind::<NodeInfo>(fs, m, number(10, v));
    lemma_behind::<NodeInfo>(fs, m, number(11, v));
    lemma_behind::<NodeInfo>(fs, m, number(12, v));
    lemma_behind::<NodeInfo>(fs, m, number(13, v));
    lemma_behind::<NodeInfo>(fs, m, f);
}

/// The field numbers of what the phone is told of this node.
pub proof fn lemma_my_node_info_layout(
    fs: Seq<FieldView>,
    m: MyNodeInfoView,
    f: FieldView,
    v: u64,
    b: Seq<u8>,
    s: Seq<char>,
)
    requires
        wire::all_encodable(fs),
        message::decoded::<MyNodeInfo>(wire::fields_bytes(fs)) == Some(m),
        wire::encodable(f),
        b.len() <= u64::MAX,
        text::utf8(s).len() <= u64::MAX,
    ensures
        fs.len() == 0 ==> m == (MyNodeInfoView {
            my_node_num: 0,
            reboot_count: 0,
            min_app_version: 0,
            device_id: Seq::empty(),
            pio_env: Seq::empty(),
            firmware_edition: 0,
            nodedb_count: 0,
        }),
        behind::<MyNodeInfo>(fs, number(1, v)) == Some(
            MyNodeInfoOf { my_node_num: low32(v), ..m },
        ),
        behind::<MyNodeInfo>(fs, number(8, v)) == Some(
            MyNodeInfoOf { reboot_count: low32(v), ..m },
        ),
        behind::<MyNodeInfo>(fs, number(11, v)) == Some(
            MyNodeInfoOf { min_app_version: low32(v), ..m },
        ),
        behind::<MyNodeInfo>(fs, chunk(12, b)) == Some(
            MyNodeInfoOf { device_id: b, ..m },
        ),
        behind::<MyNodeInfo>(fs, chunk(13, text::utf8(s))) == Some(
            MyNodeInfoOf { pio_env: s, ..m },
        ),
        text::utf8_decoded(b) is None ==> behind::<MyNodeInfo>(fs, chunk(13, b)) is None,
        behind::<MyNodeInfo>(fs, number(14, v)) == Some(
            MyNodeInfoOf { firmware_edition: signed32(v), ..m },
        ),
        behind::<MyNodeInfo>(fs, number(15, v)) == Some(
            MyNodeInfoOf { nodedb_count: low32(v), ..m },
        ),
        f.tag == 1 && f.value !is Varint ==> behind::<MyNodeInfo>(fs, f) is None,
        f.tag == 8 && f.value !is Varint ==> behind::<MyNodeInfo>(fs, f) is None,
        f.tag == 11 && f.value !is Varint ==> behind::<MyNodeInfo>(fs, f) is None,
        f.tag == 12 && f.value !is Bytes ==> behind::<MyNodeInfo>(fs, f) is None,
        f.tag == 13 && f.value !is Bytes ==> behind::<MyNodeInfo>(fs, f) is None,
        f.tag == 14 && f.value !is Varint ==> behind::<MyNodeInfo>(fs, f) is None,
        f.tag == 15 && f.value !is Varint ==> behind::<MyNodeInfo>(fs, f) is None,
        f.tag != 1
            && f.tag != 8
            && f.tag != 11
            && f.tag != 12
            && f.tag != 13
            && f.tag != 14
            && f.tag != 15 ==> behind::<MyNodeInfo>(fs, f) == Some(m),
{
    text::lemma_utf8(s);
    lemma_behind::<MyNodeInfo>(fs, m, number(1, v));
    lemma_behind::<MyNodeInfo>(fs, m, number(8, v));
    lemma_behind::<MyNodeInfo>(fs, m, number(11, v));
    lemma_behind::<MyNodeInfo>(fs, m, chunk(12, b));
    lemma_behind::<MyNodeInfo>(fs, m, chunk(13, text::utf8(s)));
    lemma_behind::<MyNodeInfo>(fs, m, chunk(13, b));
    lemma_behind::<MyNodeInfo>(fs, m, number(14, v));
    lemma_behind::<MyNodeInfo>(fs, m, number(15, v));
    lemma_behind::<MyNodeInfo>(fs, m, f);
}

/// The field numbers of what the phone is told of the device.
pub proof fn lemma_device_metadata_layout(
    fs: Seq<FieldView>,
    m: DeviceMetadataView,
    f: FieldView,
    b: Seq<u8>,
    s: Seq<char>,
    v: u64,
)
    requires
        wire::all_encodable(fs),
        message::decoded::<DeviceMetadata>(wire::fields_bytes(fs)) == Some(m),
        wire::encodable(f),
        b.len() <= u64::MAX,
        text::utf8(s).len() <= u64::MAX,
    ensures
        fs.len() == 0 ==> m == (DeviceMetadataView {
            firmware_version: Seq::empty(),
            device_state_version: 0,
            can_shutdown: false,
            has_wifi: false,
            has_bluetooth: false,
            has_ethernet: false,
            role: 0,
            position_flags: 0,
            hw_model: 0,
            has_remote_hardware: false,
            has_pkc: false,
            excluded_modules: 0,
        }),
        behind::<DeviceMetadata>(fs, chunk(1, text::utf8(s))) == Some(
            DeviceMetadataOf { firmware_version: s, ..m },
        ),
        text::utf8_decoded(b) is None ==> behind::<DeviceMetadata>(fs, chunk(1, b)) is None,
        behind::<DeviceMetadata>(fs, number(2, v)) == Some(
            DeviceMetadataOf { device_state_version: low32(v), ..m },
        ),
        behind::<DeviceMetadata>(fs, number(3, v)) == Some(
            DeviceMetadataOf { can_shutdown: v != 0, ..m },
        ),
        behind::<DeviceMetadata>(fs, number(4, v)) == Some(
            DeviceMetadataOf { has_wifi: v != 0, ..m },
        ),
        behind::<DeviceMetadata>(fs, number(5, v)) == Some(
            DeviceMetadataOf { has_bluetooth: v != 0, ..m },
        ),
        behind::<DeviceMetadata>(fs, number(6, v)) == Some(
            DeviceMetadataOf { has_ethernet: v != 0, ..m },
        ),
        behind::<DeviceMetadata>(fs, number(7, v)) == Some(
            DeviceMetadataOf { role: signed32(v), ..m },
        ),
        behind::<DeviceMetadata>(fs, number(8, v)) == Some(
            DeviceMetadataOf { position_flags: low32(v), ..m },
        ),
        behind::<DeviceMetadata>(fs, number(9, v)) == Some(
            DeviceMetadataOf { hw_model: signed32(v), ..m },
        ),
        behind::<DeviceMetadata>(fs, number(10, v)) == Some(
            DeviceMetadataOf { has_remote_hardware: v != 0, ..m },
        ),
        behind::<DeviceMetadata>(fs, number(11, v)) == Some(
            DeviceMetadataOf { has_pkc: v != 0, ..m },
        ),
        behind::<DeviceMetadata>(fs, number(12, v)) == Some(
            DeviceMetadataOf { excluded_modules: low32(v), ..m },
        ),
        f.tag == 1 && f.value !is Bytes ==> behind::<DeviceMetadata>(fs, f) is None,
        f.tag == 2 && f.value !is Varint ==> behind::<DeviceMetadata>(fs, f) is None,
        f.tag == 3 && f.value !is Varint ==> behind::<DeviceMetadata>(fs, f) is None,
        f.tag == 4 && f.value !is Varint ==> behind::<DeviceMetadata>(fs, f) is None,
        f.tag == 5 && f.value !is Varint ==> behind::<DeviceMetadata>(fs, f) is None,
        f.tag == 6 && f.value !is Varint ==> behind::<DeviceMetadata>(fs, f) is None,
        f.tag == 7 && f.value !is Varint ==> behind::<DeviceMetadata>(fs, f) is None,
        f.tag == 8 && f.value !is Varint ==> behind::<DeviceMetadata>(fs, f) is None,
        f.tag == 9 && f.value !is Varint ==> behind::<DeviceMetadata>(fs, f) is None,
        f.tag == 10 && f.value !is Varint ==> behind::<DeviceMetadata>(fs, f) is None,
        f.tag == 11 && f.value !is Varint ==> behind::<DeviceMetadata>(fs, f) is None,
        f.tag == 12 && f.value !is Varint ==> behind::<DeviceMetadata>(fs, f) is None,
        f.tag != 1
            && f.tag != 2
            && f.tag != 3
            && f.tag != 4
            && f.tag != 5
            && f.tag != 6
            && f.tag != 7
            && f.tag != 8
            && f.tag != 9
            && f.tag != 10
            && f.tag != 11
            && f.tag != 12 ==> behind::<DeviceMetadata>(fs, f) == Some(m),
{
    text::lemma_utf8(s);
    lemma_behind::<DeviceMetadata>(fs, m, chunk(1, text::utf8(s)));
    lemma_behind::<DeviceMetadata>(fs, m, chunk(1, b));
    lemma_behind::<DeviceMetadata>(fs, m, number(2, v));
    lemma_behind::<DeviceMetadata>(fs, m, number(3, v));
    lemma_behind::<DeviceMetadata>(fs, m, number(4, v));
    lemma_behind::<DeviceMetadata>(fs, m, number(5, v));
    lemma_behind::<DeviceMetadata>(fs, m, number(6, v));
    lemma_behind::<DeviceMetadata>(fs, m, number(7, v));
    lemma_behind::<DeviceMetadata>(fs, m, number(8, v));
    lemma_behind::<DeviceMetadata>(fs, m, number(9, v));
    lemma_behind::<DeviceMetadata>(fs, m, number(10, v));
    lemma_behind::<DeviceMetadata>(fs, m, number(11, v));
    lemma_behind::<DeviceMetadata>(fs, m, number(12, v));
    lemma_behind::<DeviceMetadata>(fs, m, f);
}

/// The field numbers of the node database.
pub proof fn lemma_node_database_layout(
    fs: Seq<FieldView>,
    m: NodeDatabaseView,
    f: FieldView,
    v: u64,
    b: Seq<u8>,
)
    requires
        wire::all_encodable(fs),
        message::decoded::<NodeDatabase>(wire::fields_bytes(fs)) == Some(m),
        wire::encodable(f),
        b.len() <= u64::MAX,
    ensures
        fs.len() == 0 ==> m == (NodeDatabaseView { nodes: Seq::empty(), version: 0 }),
        behind::<NodeDatabase>(fs, number(1, v)) == Some(
            NodeDatabaseOf { version: low32(v), ..m },
        ),
        behind::<NodeDatabase>(fs, chunk(2, b))
            == match message::decoded_within::<NodeInfoLite>(b, 99) {
            Some(x) => Some(NodeDatabaseOf { nodes: m.nodes.push(x), ..m }),
            None => None,
        },
        f.tag == 1 && f.value !is Varint ==> behind::<NodeDatabase>(fs, f) is None,
        f.tag == 2 && f.value !is Bytes ==> behind::<NodeDatabase>(fs, f) is None,
        f.tag != 1
            && f.tag != 2 ==> behind::<NodeDatabase>(fs, f) == Some(m),
{
    lemma_behind::<NodeDatabase>(fs, m, number(1, v));
    lemma_behind::<NodeDatabase>(fs, m, chunk(2, b));
    lemma_behind::<NodeDatabase>(fs, m, f);
}

/// The field numbers of the module settings of a channel.
pub proof fn lemma_module_settings_layout(
    fs: Seq<FieldView>,
    m: ModuleSettings,
    f: FieldView,
    v: u64,
)
    requires
        wire::all_encodable(fs),
        message::decoded::<ModuleSettings>(wire::fields_bytes(fs)) == Some(m),
        wire::encodable(f),
    ensures
        fs.len() == 0 ==> m == (ModuleSettings {
            position_precision: 0,
            is_muted: false,
        }),
        behind::<ModuleSettings>(fs, number(1, v)) == Some(
            ModuleSettings { position_precision: low32(v), ..m },
        ),
        behind::<ModuleSettings>(fs, number(2, v)) == Some(
            ModuleSettings { is_muted: v != 0, ..m },
        ),
        f.tag == 1 && f.value !is Varint ==> behind::<ModuleSettings>(fs, f) is None,
        f.tag == 2 && f.value !is Varint ==> behind::<ModuleSettings>(fs, f) is None,
        f.tag != 1
            && f.tag != 2 ==> behind::<ModuleSettings>(fs, f) == Some(m),
{
    lemma_behind::<ModuleSettings>(fs, m, number(1, v));
    lemma_behind::<ModuleSettings>(fs, m, number(2, v));
    lemma_behind::<ModuleSettings>(fs, m, f);
}

/// The field numbers of the settings of a channel.
pub proof fn lemma_channel_settings_layout(
    fs: Seq<FieldView>,
    m: ChannelSettingsView,
    f: FieldView,
    v: u64,
    b: Seq<u8>,
    s: Seq<char>,
    x: u32,
)
    requires
        wire::all_encodable(fs),
        message::decoded::<ChannelSettings>(wire::fields_bytes(fs)) == Some(m),
        wire::encodable(f),
        b.len() <= u64::MAX,
        text::utf8(s).len() <= u64::MAX,
    ensures
        fs.len() == 0 ==> m == (ChannelSettingsView {
            channel_num: 0,
            psk: Seq::empty(),
            name: Seq::empty(),
            id: 0,
            uplink_enabled: false,
            downlink_enabled: false,
            module_settings: None,
        }),
        behind::<ChannelSettings>(fs, number(1, v)) == Some(
            ChannelSettingsOf { channel_num: low32(v), ..m },
        ),
        behind::<ChannelSettings>(fs, chunk(2, b)) == Some(
            ChannelSettingsOf { psk: b, ..m },
        ),
        behind::<ChannelSettings>(fs, chunk(3, text::utf8(s))) == Some(
            ChannelSettingsOf { name: s, ..m },
        ),
        text::utf8_decoded(b) is None ==> behind::<ChannelSettings>(fs, chunk(3, b)) is None,
        behind::<ChannelSettings>(fs, word(4, x)) == Some(
            ChannelSettingsOf { id: x, ..m },
        ),
        behind::<ChannelSettings>(fs, number(5, v)) == Some(
            ChannelSettingsOf { uplink_enabled: v != 0, ..m },
        ),
        behind::<ChannelSettings>(fs, number(6, v)) == Some(
            ChannelSettingsOf { downlink_enabled: v != 0, ..m },
        ),
        m.module_settings is None
            ==> behind::<ChannelSettings>(fs, chunk(7, b))
            == match message::decoded_within::<ModuleSettings>(b, 99) {
            Some(x) => Some(ChannelSettingsOf { module_settings: Some(x), ..m }),
            None => None,
        },
        m.module_settings matches Some(old)
            ==> behind::<ChannelSettings>(fs, chunk(7, b))
            == match message::merged_bytes::<ModuleSettings>(old, b, 99) {
            Some(x) => Some(ChannelSettingsOf { module_settings: Some(x), ..m }),
            None => None,
        },
        f.tag == 1 && f.value !is Varint ==> behind::<ChannelSettings>(fs, f) is None,
        f.tag == 2 && f.value !is Bytes ==> behind::<ChannelSettings>(fs, f) is None,
        f.tag == 3 && f.value !is Bytes ==> behind::<ChannelSettings>(fs, f) is None,
        f.tag == 4 && f.value !is Fixed32 ==> behind::<ChannelSettings>(fs, f) is None,
        f.tag == 5 && f.value !is Varint ==> behind::<ChannelSettings>(fs, f) is None,
        f.tag == 6 && f.value !is Varint ==> behind::<ChannelSettings>(fs, f) is None,
        f.tag == 7 && f.value !is Bytes ==> behind::<ChannelSettings>(fs, f) is None,
        f.tag != 1
            && f.tag != 2
            && f.tag != 3
            && f.tag != 4
            && f.tag != 5
            && f.tag != 6
            && f.tag != 7 ==> behind::<ChannelSettings>(fs, f) == Some(m),
{
    text::lemma_utf8(s);
    lemma_behind::<ChannelSettings>(fs, m, number(1, v));
    lemma_behind::<ChannelSettings>(fs, m, chunk(2, b));
    lemma_behind::<ChannelSettings>(fs, m, chunk(3, text::utf8(s)));
    lemma_behind::<ChannelSettings>(fs, m, chunk(3, b));
    lemma_behind::<ChannelSettings>(fs, m, word(4, x));
    lemma_behind::<ChannelSettings>(fs, m, number(5, v));
    lemma_behind::<ChannelSettings>(fs, m, number(6, v));
    lemma_behind::<ChannelSettings>(fs, m, chunk(7, b));
    lemma_behind::<ChannelSettings>(fs, m, f);
}

/// The field numbers of a channel.
pub proof fn lemma_channel_layout(
    fs: Seq<FieldView>,
    m: ChannelView,
    f: FieldView,
    v: u64,
    b: Seq<u8>,
)
    requires
        wire::all_encodable(fs),
        message::decoded::<Channel>(wire::fields_bytes(fs)) == Some(m),
        wire::encodable(f),
        b.len() <= u64::MAX,
    ensures
        fs.len() == 0 ==> m == (ChannelView {
            index: 0,
            settings: None,
            role: 0,
        }),
        behind::<Channel>(fs, number(1, v)) == Some(
            ChannelOf { index: signed32(v), ..m },
        ),
        m.settings is None
            ==> behind::<Channel>(fs, chunk(2, b))
            == match message::decoded_within::<ChannelSettings>(b, 99) {
            Some(x) => Some(ChannelOf { settings: Some(x), ..m }),
            None => None,
        },
        m.settings matches Some(old)
            ==> behind::<Channel>(fs, chunk(2, b))
            == match message::merged_bytes::<ChannelSettings>(old, b, 99) {
            Some(x) => Some(ChannelOf { settings: Some(x), ..m }),
            None => None,
        },
        behind::<Channel>(fs, number(3, v)) == Some(
            ChannelOf { role: signed32(v), ..m },
        ),
        f.tag == 1 && f.value !is Varint ==> behind::<Channel>(fs, f) is None,
        f.tag == 2 && f.value !is Bytes ==> behind::<Channel>(fs, f) is None,
        f.tag == 3 && f.value !is Varint ==> behind::<Channel>(fs, f) is None,
        f.tag != 1
            && f.tag != 2
            && f.tag != 3 ==> behind::<Channel>(fs, f) == Some(m),
{
    lemma_behind::<Channel>(fs, m, number(1, v));
    lemma_behind::<Channel>(fs, m, chunk(2, b));
    lemma_behind::<Channel>(fs, m, number(3, v));
    lemma_behind::<Channel>(fs, m, f);
}

/// The field numbers of the channel table.
pub proof fn lemma_channel_file_layout(
    fs: Seq<FieldView>,
    m: ChannelFileView,
    f: FieldView,
    b: Seq<u8>,
    v: u64,
)
    requires
        wire::all_encodable(fs),
        message::decoded::<ChannelFile>(wire::fields_bytes(fs)) == Some(m),
        wire::encodable(f),
        b.len() <= u64::MAX,
    ensures
        fs.len() == 0 ==> m == (ChannelFileView { channels: Seq::empty(), version: 0 }),
        behind::<ChannelFile>(fs, chunk(1, b)) == match message::decoded_within::<Channel>(b, 99) {
            Some(x) => Some(ChannelFileOf { channels: m.channels.push(x), ..m }),
            None => None,
        },
        behind::<ChannelFile>(fs, number(2, v)) == Some(
            ChannelFileOf { version: low32(v), ..m },
        ),
        f.tag == 1 && f.value !is Bytes ==> behind::<ChannelFile>(fs, f) is None,
        f.tag == 2 && f.value !is Varint ==> behind::<ChannelFile>(fs, f) is None,
        f.tag != 1
            && f.tag != 2 ==> behind::<ChannelFile>(fs, f) == Some(m),
{
    lemma_behind::<ChannelFile>(fs, m, chunk(1, b));
    lemma_behind::<ChannelFile>(fs, m, number(2, v));
    lemma_behind::<ChannelFile>(fs, m, f);
}

/// The field numbers of a queue state.
pub proof fn lemma_queue_status_layout(fs: Seq<FieldView>, m: QueueStatus, f: FieldView, v: u64)
    requires
        wire::all_encodable(fs),
        message::decoded::<QueueStatus>(wire::fields_bytes(fs)) == Some(m),
        wire::encodable(f),
    ensures
        fs.len() == 0 ==> m == (QueueStatus {
            res: 0,
            free: 0,
            maxlen: 0,
            mesh_packet_id: 0,
        }),
        behind::<QueueStatus>(fs, number(1, v)) == Some(
            QueueStatus { res: signed32(v), ..m },
        ),
        behind::<QueueStatus>(fs, number(2, v)) == Some(
            QueueStatus { free: low32(v), ..m },
        ),
        behind::<QueueStatus>(fs, number(3, v)) == Some(
            QueueStatus { maxlen: low32(v), ..m },
        ),
        behind::<QueueStatus>(fs, number(4, v)) == Some(
            QueueStatus { mesh_packet_id: low32(v), ..m },
        ),
        f.tag == 1 && f.value !is Varint ==> behind::<QueueStatus>(fs, f) is None,
        f.tag == 2 && f.value !is Varint ==> behind::<QueueStatus>(fs, f) is None,
        f.tag == 3 && f.value !is Varint ==> behind::<QueueStatus>(fs, f) is None,
        f.tag == 4 && f.value !is Varint ==> behind::<QueueStatus>(fs, f) is None,
        f.tag != 1
            && f.tag != 2
            && f.tag != 3
            && f.tag != 4 ==> behind::<QueueStatus>(fs, f) == Some(m),
{
    lemma_behind::<QueueStatus>(fs, m, number(1, v));
    lemma_behind::<QueueStatus>(fs, m, number(2, v));
    lemma_behind::<QueueStatus>(fs, m, number(3, v));
    lemma_behind::<QueueStatus>(fs, m, number(4, v));
    lemma_behind::<QueueStatus>(fs, m, f);
}

/// The field numbers of a log record.
pub proof fn lemma_log_record_layout(
    fs: Seq<FieldView>,
    m: LogRecordView,
    f: FieldView,
    b: Seq<u8>,
    s: Seq<char>,
    x: u32,
    v: u64,
)
    requires
        wire::all_encodable(fs),
        message::decoded::<LogRecord>(wire::fields_bytes(fs)) == Some(m),
        wire::encodable(f),
        b.len() <= u64::MAX,
        text::utf8(s).len() <= u64::MAX,
    ensures
        fs.len() == 0 ==> m == (LogRecordView {
            message: Seq::empty(),
            time: 0,
            source: Seq::empty(),
            level: 0,
        }),
        behind::<LogRecord>(fs, chunk(1, text::utf8(s))) == Some(
            LogRecordOf { message: s, ..m },
        ),
        text::utf8_decoded(b) is None ==> behind::<LogRecord>(fs, chunk(1, b)) is None,
        behind::<LogRecord>(fs, word(2, x)) == Some(
            LogRecordOf { time: x, ..m },
        ),
        behind::<LogRecord>(fs, chunk(3, text::utf8(s))) == Some(
            LogRecordOf { source: s, ..m },
        ),
        text::utf8_decoded(b) is None ==> behind::<LogRecord>(fs, chunk(3, b)) is None,
        behind::<LogRecord>(fs, number(4, v)) == Some(
            LogRecordOf { level: signed32(v), ..m },
        ),
        f.tag == 1 && f.value !is Bytes ==> behind::<LogRecord>(fs, f) is None,
        f.tag == 2 && f.value !is Fixed32 ==> behind::<LogRecord>(fs, f) is None,
        f.tag == 3 && f.value !is Bytes ==> behind::<LogRecord>(fs, f) is None,
        f.tag == 4 && f.value !is Varint ==> behind::<LogRecord>(fs, f) is None,
        f.tag != 1
            && f.tag != 2
            && f.tag != 3
            && f.tag != 4 ==> behind::<LogRecord>(fs, f) == Some(m),
{
    text::lemma_utf8(s);
    lemma_behind::<LogRecord>(fs, m, chunk(1, text::utf8(s)));
    lemma_behind::<LogRecord>(fs, m, chunk(1, b));
    lemma_behind::<LogRecord>(fs, m, word(2, x));
    lemma_behind::<LogRecord>(fs, m, chunk(3, text::utf8(s)));
    lemma_behind::<LogRecord>(fs, m, chunk(3, b));
    lemma_behind::<LogRecord>(fs, m, number(4, v));
    lemma_behind::<LogRecord>(fs, m, f);
}

/// The field numbers of a heartbeat.
pub proof fn lemma_heartbeat_layout(fs: Seq<FieldView>, m: Heartbeat, f: FieldView, v: u64)
    requires
        wire::all_encodable(fs),
        message::decoded::<Heartbeat>(wire::fields_bytes(fs)) == Some(m),
        wire::encodable(f),
    ensures
        fs.len() == 0 ==> m == (Heartbeat {
            nonce: 0,
        }),
        behind::<Heartbeat>(fs, number(1, v)) == Some(
            Heartbeat { nonce: low32(v), ..m },
        ),
        f.tag == 1 && f.value !is Varint ==> behind::<Heartbeat>(fs, f) is None,
        f.tag != 1 ==> behind::<Heartbeat>(fs, f) == Some(m),
{
    lemma_behind::<Heartbeat>(fs, m, number(1, v));
    lemma_behind::<Heartbeat>(fs, m, f);
}

/// The field numbers of a piece of a file.
pub proof fn lemma_xmodem_layout(
    fs: Seq<FieldView>,
    m: XModemView,
    f: FieldView,
    v: u64,
    b: Seq<u8>,
)
    requires
        wire::all_encodable(fs),
        message::decoded::<XModem>(wire::fields_bytes(fs)) == Some(m),
        wire::encodable(f),
        b.len() <= u64::MAX,
    ensures
        fs.len() == 0 ==> m == (XModemView {
            control: 0,
            seq: 0,
            crc16: 0,
            buffer: Seq::empty(),
        }),
        behind::<XModem>(fs, number(1, v)) == Some(
            XModemOf { control: signed32(v), ..m },
        ),
        behind::<XModem>(fs, number(2, v)) == Some(
            XModemOf { seq: low32(v), ..m },
        ),
        behind::<XModem>(fs, number(3, v)) == Some(
            XModemOf { crc16: low32(v), ..m },
        ),
        behind::<XModem>(fs, chunk(4, b)) == Some(
            XModemOf { buffer: b, ..m },
        ),
        f.tag == 1 && f.value !is Varint ==> behind::<XModem>(fs, f) is None,
        f.tag == 2 && f.value !is Varint ==> behind::<XModem>(fs, f) is None,
        f.tag == 3 && f.value !is Varint ==> behind::<XModem>(fs, f) is None,
        f.tag == 4 && f.value !is Bytes ==> behind::<XModem>(fs, f) is None,
        f.tag != 1
            && f.tag != 2
            && f.tag != 3
            && f.tag != 4 ==> behind::<XModem>(fs, f) == Some(m),
{
    lemma_behind::<XModem>(fs, m, number(1, v));
    lemma_behind::<XModem>(fs, m, number(2, v));
    lemma_behind::<XModem>(fs, m, number(3, v));
    lemma_behind::<XModem>(fs, m, chunk(4, b));
    lemma_behind::<XModem>(fs, m, f);
}

/// The field numbers of an MQTT message.
pub proof fn lemma_mqtt_client_proxy_message_layout(
    fs: Seq<FieldView>,
    m: MqttClientProxyMessageView,
    f: FieldView,
    b: Seq<u8>,
    s: Seq<char>,
    v: u64,
)
    requires
        wire::all_encodable(fs),
        message::decoded::<MqttClientProxyMessage>(wire::fields_bytes(fs)) == Some(m),
        wire::encodable(f),
        b.len() <= u64::MAX,
        text::utf8(s).len() <= u64::MAX,
    ensures
        fs.len() == 0 ==> m == (MqttClientProxyMessageView {
            topic: Seq::empty(),
            payload_variant: None,
            retained: false,
        }),
        behind::<MqttClientProxyMessage>(fs, chunk(1, text::utf8(s))) == Some(
            MqttClientProxyMessageOf { topic: s, ..m },
        ),
        text::utf8_decoded(b) is None ==> behind::<MqttClientProxyMessage>(fs, chunk(1, b)) is None,
        behind::<MqttClientProxyMessage>(fs, chunk(2, b)) == Some(
            MqttClientProxyMessageOf { payload_variant: Some(MqttPayloadOf::Data(b)), ..m },
        ),
        behind::<MqttClientProxyMessage>(fs, chunk(3, text::utf8(s))) == Some(
            MqttClientProxyMessageOf { payload_variant: Some(MqttPayloadOf::Text(s)), ..m },
        ),
        text::utf8_decoded(b) is None ==> behind::<MqttClientProxyMessage>(fs, chunk(3, b)) is None,
        behind::<MqttClientProxyMessage>(fs, number(4, v)) == Some(
            MqttClientProxyMessageOf { retained: v != 0, ..m },
        ),
        f.tag == 1 && f.value !is Bytes ==> behind::<MqttClientProxyMessage>(fs, f) is None,
        f.tag == 2 && f.value !is Bytes ==> behind::<MqttClientProxyMessage>(fs, f) is None,
        f.tag == 3 && f.value !is Bytes ==> behind::<MqttClientProxyMessage>(fs, f) is None,
        f.tag == 4 && f.value !is Varint ==> behind::<MqttClientProxyMessage>(fs, f) is None,
        f.tag != 1
            && f.tag != 2
            && f.tag != 3
            && f.tag != 4 ==> behind::<MqttClientProxyMessage>(fs, f) == Some(m),
{
    text::lemma_utf8(s);
    lemma_behind::<MqttClientProxyMessage>(fs, m, chunk(1, text::utf8(s)));
    lemma_behind::<MqttClientProxyMessage>(fs, m, chunk(1, b));
    lemma_behind::<MqttClientProxyMessage>(fs, m, chunk(2, b));
    lemma_behind::<MqttClientProxyMessage>(fs, m, chunk(3, text::utf8(s)));
    lemma_behind::<MqttClientProxyMessage>(fs, m, chunk(3, b));
    lemma_behind::<MqttClientProxyMessage>(fs, m, number(4, v));
    lemma_behind::<MqttClientProxyMessage>(fs, m, f);
}

/// The field numbers of a frame from the phone.
pub proof fn lemma_to_radio_layout(
    fs: Seq<FieldView>,
    m: ToRadioView,
    f: FieldView,
    b: Seq<u8>,
    v: u64,
)
    requires
        wire::all_encodable(fs),
        message::decoded::<ToRadio>(wire::fields_bytes(fs)) == Some(m),
        wire::encodable(f),
        b.len() <= u64::MAX,
    ensures
        fs.len() == 0 ==> m == (ToRadioView {
            payload_variant: None,
        }),
        !(m.payload_variant matches Some(ToRadioVariantOf::Packet(_)))
            ==> behind::<ToRadio>(fs, chunk(1, b))
            == match message::decoded_within::<MeshPacket>(b, 99) {
            Some(x) => Some(ToRadioOf { payload_variant: Some(ToRadioVariantOf::Packet(x)), ..m }),
            None => None,
        },
        m.payload_variant matches Some(ToRadioVariantOf::Packet(old))
            ==> behind::<ToRadio>(fs, chunk(1, b))
            == match message::merged_bytes::<MeshPacket>(old, b, 99) {
            Some(x) => Some(ToRadioOf { payload_variant: Some(ToRadioVariantOf::Packet(x)), ..m }),
            None => None,
        },
        behind::<ToRadio>(fs, number(3, v)) == Some(
            ToRadioOf { payload_variant: Some(ToRadioVariantOf::WantConfigId(low32(v))), ..m },
        ),
        behind::<ToRadio>(fs, number(4, v)) == Some(
            ToRadioOf { payload_variant: Some(ToRadioVariantOf::Disconnect(v != 0)), ..m },
        ),
        !(m.payload_variant matches Some(ToRadioVariantOf::XmodemPacket(_)))
            ==> behind::<ToRadio>(fs, chunk(5, b))
            == match message::decoded_within::<XModem>(b, 99) {
            Some(x) => Some(
                ToRadioOf { payload_variant: Some(ToRadioVariantOf::XmodemPacket(x)), ..m },
            ),
            None => None,
        },
        m.payload_variant matches Some(ToRadioVariantOf::XmodemPacket(old))
            ==> behind::<ToRadio>(fs, chunk(5, b))
            == match message::merged_bytes::<XModem>(old, b, 99) {
            Some(x) => Some(
                ToRadioOf { payload_variant: Some(ToRadioVariantOf::XmodemPacket(x)), ..m },
            ),
            None => None,
        },
        !(m.payload_variant matches Some(ToRadioVariantOf::MqttClientProxyMessage(_)))
            ==> behind::<ToRadio>(fs, chunk(6, b))
            == match message::decoded_within::<MqttClientProxyMessage>(b, 99) {
            Some(x) => Some(
                ToRadioOf { payload_variant: Some(ToRadioVariantOf::MqttClientProxyMessage(x)), ..m },
            ),
            None => None,
        },
        m.payload_variant matches Some(ToRadioVariantOf::MqttClientProxyMessage(old))
            ==> behind::<ToRadio>(fs, chunk(6, b))
            == match message::merged_bytes::<MqttClientProxyMessage>(old, b, 99) {
            Some(x) => Some(
                ToRadioOf { payload_variant: Some(ToRadioVariantOf::MqttClientProxyMessage(x)), ..m },
            ),
            None => None,
        },
        !(m.payload_variant matches Some(ToRadioVariantOf::Heartbeat(_)))
            ==> behind::<ToRadio>(fs, chunk(7, b))
            == match message::decoded_within::<Heartbeat>(b, 99) {
            Some(x) => Some(
                ToRadioOf { payload_variant: Some(ToRadioVariantOf::Heartbeat(x)), ..m },
            ),
            None => None,
        },
        m.payload_variant matches Some(ToRadioVariantOf::Heartbeat(old))
            ==> behind::<ToRadio>(fs, chunk(7, b))
            == match message::merged_bytes::<Heartbeat>(old, b, 99) {
            Some(x) => Some(
                ToRadioOf { payload_variant: Some(ToRadioVariantOf::Heartbeat(x)), ..m },
            ),
            None => None,
        },
        f.tag == 1 && f.value !is Bytes ==> behind::<ToRadio>(fs, f) is None,
        f.tag == 3 && f.value !is Varint ==> behind::<ToRadio>(fs, f) is None,
        f.tag == 4 && f.value !is Varint ==> behind::<ToRadio>(fs, f) is None,
        f.tag == 5 && f.value !is Bytes ==> behind::<ToRadio>(fs, f) is None,
        f.tag == 6 && f.value !is Bytes ==> behind::<ToRadio>(fs, f) is None,
        f.tag == 7 && f.value !is Bytes ==> behind::<ToRadio>(fs, f) is None,
        f.tag != 1
            && f.tag != 3
            && f.tag != 4
            && f.tag != 5
            && f.tag != 6
            && f.tag != 7 ==> behind::<ToRadio>(fs, f) == Some(m),
{
    lemma_behind::<ToRadio>(fs, m, chunk(1, b));
    lemma_behind::<ToRadio>(fs, m, number(3, v));
    lemma_behind::<ToRadio>(fs, m, number(4, v));
    lemma_behind::<ToRadio>(fs, m, chunk(5, b));
    lemma_behind::<ToRadio>(fs, m, chunk(6, b));
    lemma_behind::<ToRadio>(fs, m, chunk(7, b));
    lemma_behind::<ToRadio>(fs, m, f);
}

/// The field numbers of a frame to the phone.
pub proof fn lemma_from_radio_layout(
    fs: Seq<FieldView>,
    m: FromRadioView,
    f: FieldView,
    v: u64,
    b: Seq<u8>,
)
    requires
        wire::all_encodable(fs),
        message::decoded::<FromRadio>(wire::fields_bytes(fs)) == Some(m),
        wire::encodable(f),
        b.len() <= u64::MAX,
    ensures
        fs.len() == 0 ==> m == (FromRadioView {
            id: 0,
            payload_variant: None,
        }),
        behind::<FromRadio>(fs, number(1, v)) == Some(
            FromRadioOf { id: low32(v), ..m },
        ),
        !(m.payload_variant matches Some(FromRadioVariantOf::Packet(_)))
            ==> behind::<FromRadio>(fs, chunk(2, b))
            == match message::decoded_within::<MeshPacket>(b, 99) {
            Some(x) => Some(
                FromRadioOf { payload_variant: Some(FromRadioVariantOf::Packet(x)), ..m },
            ),
            None => None,
        },
        m.payload_variant matches Some(FromRadioVariantOf::Packet(old))
            ==> behind::<FromRadio>(fs, chunk(2, b))
            == match message::merged_bytes::<MeshPacket>(old, b, 99) {
            Some(x) => Some(
                FromRadioOf { payload_variant: Some(FromRadioVariantOf::Packet(x)), ..m },
            ),
            None => None,
        },
        !(m.payload_variant matches Some(FromRadioVariantOf::MyInfo(_)))
            ==> behind::<FromRadio>(fs, chunk(3, b))
            == match message::decoded_within::<MyNodeInfo>(b, 99) {
            Some(x) => Some(
                FromRadioOf { payload_variant: Some(FromRadioVariantOf::MyInfo(x)), ..m },
            ),
            None => None,
        },
        m.payload_variant matches Some(FromRadioVariantOf::MyInfo(old))
            ==> behind::<FromRadio>(fs, chunk(3, b))
            == match message::merged_bytes::<MyNodeInfo>(old, b, 99) {
            Some(x) => Some(
                FromRadioOf { payload_variant: Some(FromRadioVariantOf::MyInfo(x)), ..m },
            ),
            None => None,
        },
        !(m.payload_variant matches Some(FromRadioVariantOf::NodeInfo(_)))
            ==> behind::<FromRadio>(fs, chunk(4, b))
            == match message::decoded_within::<NodeInfo>(b, 99) {
            Some(x) => Some(
                FromRadioOf { payload_variant: Some(FromRadioVariantOf::NodeInfo(x)), ..m },
            ),
            None => None,
        },
        m.payload_variant matches Some(FromRadioVariantOf::NodeInfo(old))
            ==> behind::<FromRadio>(fs, chunk(4, b))
            == match message::merged_bytes::<NodeInfo>(old, b, 99) {
            Some(x) => Some(
                FromRadioOf { payload_variant: Some(FromRadioVariantOf::NodeInfo(x)), ..m },
            ),
            None => None,
        },
        !(m.payload_variant matches Some(FromRadioVariantOf::Config(_)))
            ==> behind::<FromRadio>(fs, chunk(5, b))
            == match message::decoded_within::<Config>(b, 99) {
            Some(x) => Some(
                FromRadioOf { payload_variant: Some(FromRadioVariantOf::Config(x)), ..m },
            ),
            None => None,
        },
        m.payload_variant matches Some(FromRadioVariantOf::Config(old))
            ==> behind::<FromRadio>(fs, chunk(5, b))
            == match message::merged_bytes::<Config>(old, b, 99) {
            Some(x) => Some(
                FromRadioOf { payload_variant: Some(FromRadioVariantOf::Config(x)), ..m },
            ),
            None => None,
        },
        !(m.payload_variant matches Some(FromRadioVariantOf::LogRecord(_)))
            ==> behind::<FromRadio>(fs, chunk(6, b))
            == match message::decoded_within::<LogRecord>(b, 99) {
            Some(x) => Some(
                FromRadioOf { payload_variant: Some(FromRadioVariantOf::LogRecord(x)), ..m },
            ),
            None => None,
        },
        m.payload_variant matches Some(FromRadioVariantOf::LogRecord(old))
            ==> behind::<FromRadio>(fs, chunk(6, b))
            == match message::merged_bytes::<LogRecord>(old, b, 99) {
            Some(x) => Some(
                FromRadioOf { payload_variant: Some(FromRadioVariantOf::LogRecord(x)), ..m },
            ),
            None => None,
        },
        behind::<FromRadio>(fs, number(7, v)) == Some(
            FromRadioOf { payload_variant: Some(FromRadioVariantOf::ConfigCompleteId(low32(v))), ..m },
        ),
        behind::<FromRadio>(fs, number(8, v)) == Some(
            FromRadioOf { payload_variant: Some(FromRadioVariantOf::Rebooted(v != 0)), ..m },
        ),
        !(m.payload_variant matches Some(FromRadioVariantOf::ModuleConfig(_)))
            ==> behind::<FromRadio>(fs, chunk(9, b))
            == match message::decoded_within::<ModuleConfig>(b, 99) {
            Some(x) => Some(
                FromRadioOf { payload_variant: Some(FromRadioVariantOf::ModuleConfig(x)), ..m },
            ),
            None => None,
        },
        m.payload_variant matches Some(FromRadioVariantOf::ModuleConfig(old))
            ==> behind::<FromRadio>(fs, chunk(9, b))
            == match message::merged_bytes::<ModuleConfig>(old, b, 99) {
            Some(x) => Some(
                FromRadioOf { payload_variant: Some(FromRadioVariantOf::ModuleConfig(x)), ..m },
            ),
            None => None,
        },
        !(m.payload_variant matches Some(FromRadioVariantOf::Channel(_)))
            ==> behind::<FromRadio>(fs, chunk(10, b))
            == match message::decoded_within::<Channel>(b, 99) {
            Some(x) => Some(
                FromRadioOf { payload_variant: Some(FromRadioVariantOf::Channel(x)), ..m },
            ),
            None => None,
        },
        m.payload_variant matches Some(FromRadioVariantOf::Channel(old))
            ==> behind::<FromRadio>(fs, chunk(10, b))
            == match message::merged_bytes::<Channel>(old, b, 99) {
            Some(x) => Some(
                FromRadioOf { payload_variant: Some(FromRadioVariantOf::Channel(x)), ..m },
            ),
            None => None,
        },
        !(m.payload_variant matches Some(FromRadioVariantOf::QueueStatus(_)))
            ==> behind::<FromRadio>(fs, chunk(11, b))
            == match message::decoded_within::<QueueStatus>(b, 99) {
            Some(x) => Some(
                FromRadioOf { payload_variant: Some(FromRadioVariantOf::QueueStatus(x)), ..m },
            ),
            None => None,
        },
        m.payload_variant matches Some(FromRadioVariantOf::QueueStatus(old))
            ==> behind::<FromRadio>(fs, chunk(11, b))
            == match message::merged_bytes::<QueueStatus>(old, b, 99) {
            Some(x) => Some(
                FromRadioOf { payload_variant: Some(FromRadioVariantOf::QueueStatus(x)), ..m },
            ),
            None => None,
        },
        !(m.payload_variant matches Some(FromRadioVariantOf::Metadata(_)))
            ==> behind::<FromRadio>(fs, chunk(13, b))
            == match message::decoded_within::<DeviceMetadata>(b, 99) {
            Some(x) => Some(
                FromRadioOf { payload_variant: Some(FromRadioVariantOf::Metadata(x)), ..m },
            ),
            None => None,
        },
        m.payload_variant matches Some(FromRadioVariantOf::Metadata(old))
            ==> behind::<FromRadio>(fs, chunk(13, b))
            == match message::merged_bytes::<DeviceMetadata>(old, b, 99) {
            Some(x) => Some(
                FromRadioOf { payload_variant: Some(FromRadioVariantOf::Metadata(x)), ..m },
            ),
            None => None,
        },
        f.tag == 1 && f.value !is Varint ==> behind::<FromRadio>(fs, f) is None,
        f.tag == 2 && f.value !is Bytes ==> behind::<FromRadio>(fs, f) is None,
        f.tag == 3 && f.value !is Bytes ==> behind::<FromRadio>(fs, f) is None,
        f.tag == 4 && f.value !is Bytes ==> behind::<FromRadio>(fs, f) is None,
        f.tag == 5 && f.value !is Bytes ==> behind::<FromRadio>(fs, f) is None,
        f.tag == 6 && f.value !is Bytes ==> behind::<FromRadio>(fs, f) is None,
        f.tag == 7 && f.value !is Varint ==> behind::<FromRadio>(fs, f) is None,
        f.tag == 8 && f.value !is Varint ==> behind::<FromRadio>(fs, f) is None,
        f.tag == 9 && f.value !is Bytes ==> behind::<FromRadio>(fs, f) is None,
        f.tag == 10 && f.value !is Bytes ==> behind::<FromRadio>(fs, f) is None,
        f.tag == 11 && f.value !is Bytes ==> behind::<FromRadio>(fs, f) is None,
        f.tag == 13 && f.value !is Bytes ==> behind::<FromRadio>(fs, f) is None,
        f.tag != 1
            && f.tag != 2
            && f.tag != 3
            && f.tag != 4
            && f.tag != 5
            && f.tag != 6
            && f.tag != 7
            && f.tag != 8
            && f.tag != 9
            && f.tag != 10
            && f.tag != 11
            && f.tag != 13 ==> behind::<FromRadio>(fs, f) == Some(m),
{
    lemma_behind::<FromRadio>(fs, m, number(1, v));
    lemma_behind::<FromRadio>(fs, m, chunk(2, b));
    lemma_behind::<FromRadio>(fs, m, chunk(3, b));
    lemma_behind::<FromRadio>(fs, m, chunk(4, b));
    lemma_behind::<FromRadio>(fs, m, chunk(5, b));
    lemma_behind::<FromRadio>(fs, m, chunk(6, b));
    lemma_behind::<FromRadio>(fs, m, number(7, v));
    lemma_behind::<FromRadio>(fs, m, number(8, v));
    lemma_behind::<FromRadio>(fs, m, chunk(9, b));
    lemma_behind::<FromRadio>(fs, m, chunk(10, b));
    lemma_behind::<FromRadio>(fs, m, chunk(11, b));
    lemma_behind::<FromRadio>(fs, m, chunk(13, b));
    lemma_behind::<FromRadio>(fs, m, f);
}

/// A message of which nothing is set is written as nothing.
pub proof fn lemma_blank_is_empty()
    ensures
        message::encoded::<Data>(Data::blank()) == Seq::<u8>::empty(),
        message::encoded::<MeshPacket>(MeshPacket::blank()) == Seq::<u8>::empty(),
        message::encoded::<Routing>(Routing::blank()) == Seq::<u8>::empty(),
        message::encoded::<User>(User::blank()) == Seq::<u8>::empty(),
        message::encoded::<UserLite>(UserLite::blank()) == Seq::<u8>::empty(),
        message::encoded::<NodeInfoLite>(NodeInfoLite::blank()) == Seq::<u8>::empty(),
        message::encoded::<NodeInfo>(NodeInfo::blank()) == Seq::<u8>::empty(),
        message::encoded::<MyNodeInfo>(MyNodeInfo::blank()) == Seq::<u8>::empty(),
        message::encoded::<DeviceMetadata>(DeviceMetadata::blank()) == Seq::<u8>::empty(),
        message::encoded::<NodeDatabase>(NodeDatabase::blank()) == Seq::<u8>::empty(),
        message::encoded::<ModuleSettings>(ModuleSettings::blank()) == Seq::<u8>::empty(),
        message::encoded::<ChannelSettings>(ChannelSettings::blank()) == Seq::<u8>::empty(),
        message::encoded::<Channel>(Channel::blank()) == Seq::<u8>::empty(),
        message::encoded::<ChannelFile>(ChannelFile::blank()) == Seq::<u8>::empty(),
        message::encoded::<QueueStatus>(QueueStatus::blank()) == Seq::<u8>::empty(),
        message::encoded::<LogRecord>(LogRecord::blank()) == Seq::<u8>::empty(),
        message::encoded::<Heartbeat>(Heartbeat::blank()) == Seq::<u8>::empty(),
        message::encoded::<XModem>(XModem::blank()) == Seq::<u8>::empty(),
        message::encoded::<MqttClientProxyMessage>(MqttClientProxyMessage::blank()) == Seq::<u8>::empty(),
        message::encoded::<ToRadio>(ToRadio::blank()) == Seq::<u8>::empty(),
        message::encoded::<FromRadio>(FromRadio::blank()) == Seq::<u8>::empty(),
{
    reveal(message::with_varint);
    reveal(message::with_bool);
    reveal(message::with_fixed32);
    reveal(message::with_float);
    reveal(message::with_bytes);
    reveal(message::with_opt_varint);
    reveal(message::with_opt_bool);
    reveal(message::with_message);
    reveal(message::with_opt_bytes);
    reveal(message::with_opt_field);
    text::lemma_utf8(Seq::empty());
    assert(text::utf8(Seq::empty()) =~= Seq::empty());
    assert(Data::fields(Data::blank()) =~= Seq::empty());
    assert(MeshPacket::fields(MeshPacket::blank()) =~= Seq::empty());
    assert(Routing::fields(Routing::blank()) =~= Seq::empty());
    assert(User::fields(User::blank()) =~= Seq::empty());
    assert(UserLite::fields(UserLite::blank()) =~= Seq::empty());
    assert(NodeInfoLite::fields(NodeInfoLite::blank()) =~= Seq::empty());
    assert(NodeInfo::fields(NodeInfo::blank()) =~= Seq::empty());
    assert(MyNodeInfo::fields(MyNodeInfo::blank()) =~= Seq::empty());
    assert(DeviceMetadata::fields(DeviceMetadata::blank()) =~= Seq::empty());
    assert(NodeDatabase::fields(NodeDatabase::blank()) =~= Seq::empty());
    assert(ModuleSettings::fields(ModuleSettings::blank()) =~= Seq::empty());
    assert(ChannelSettings::fields(ChannelSettings::blank()) =~= Seq::empty());
    assert(Channel::fields(Channel::blank()) =~= Seq::empty());
    assert(ChannelFile::fields(ChannelFile::blank()) =~= Seq::empty());
    assert(QueueStatus::fields(QueueStatus::blank()) =~= Seq::empty());
    assert(LogRecord::fields(LogRecord::blank()) =~= Seq::empty());
    assert(Heartbeat::fields(Heartbeat::blank()) =~= Seq::empty());
    assert(XModem::fields(XModem::blank()) =~= Seq::empty());
    assert(MqttClientProxyMessage::fields(MqttClientProxyMessage::blank()) =~= Seq::empty());
    assert(ToRadio::fields(ToRadio::blank()) =~= Seq::empty());
    assert(FromRadio::fields(FromRadio::blank()) =~= Seq::empty());
}

} // verus!
