//! Nodes and what is known of them.

use crate::held::{self, hold};
use crate::message::{
    self, inner_room, int32_to_bits, merge_bytes, to_int32, to_uint32, FieldWriter, Message,
    RoundTrip,
};
use crate::shape::Shape;
use crate::text;
use crate::wire::{self, Field, FieldView, WireValueOf};
use vstd::prelude::*;

verus! {

/// Who a node is.
#[verifier::ext_equal]
#[derive(Debug, PartialEq)]
pub struct UserOf<B, S> {
    pub id: S,
    pub long_name: S,
    pub short_name: S,
    pub macaddr: B,
    pub hw_model: i32,
    pub is_licensed: bool,
    pub role: i32,
    pub public_key: B,
    pub is_unmessagable: Option<bool>,
}

pub type User = UserOf<Vec<u8>, String>;

pub type UserView = UserOf<Seq<u8>, Seq<char>>;

impl View for UserOf<Vec<u8>, String> {
    type V = UserView;

    open spec fn view(&self) -> UserView {
        UserOf {
            id: self.id@,
            long_name: self.long_name@,
            short_name: self.short_name@,
            macaddr: self.macaddr@,
            hw_model: self.hw_model,
            is_licensed: self.is_licensed,
            role: self.role,
            public_key: self.public_key@,
            is_unmessagable: self.is_unmessagable,
        }
    }
}

impl Clone for UserOf<Vec<u8>, String> {
    fn clone(&self) -> (r: Self)
        ensures
            r@ == self@,
    {
        UserOf {
            id: self.id.clone(),
            long_name: self.long_name.clone(),
            short_name: self.short_name.clone(),
            macaddr: self.macaddr.clone(),
            hw_model: self.hw_model,
            is_licensed: self.is_licensed,
            role: self.role,
            public_key: self.public_key.clone(),
            is_unmessagable: self.is_unmessagable,
        }
    }
}

impl Default for UserOf<Vec<u8>, String> {
    fn default() -> (r: Self)
        ensures
            r@ == Self::blank(),
    {
        Self::new_blank()
    }
}

impl Message for UserOf<Vec<u8>, String> {
    open spec fn blank() -> UserView {
        UserOf {
            id: Seq::empty(),
            long_name: Seq::empty(),
            short_name: Seq::empty(),
            macaddr: Seq::empty(),
            hw_model: 0,
            is_licensed: false,
            role: 0,
            public_key: Seq::empty(),
            is_unmessagable: None,
        }
    }

    open spec fn merged(m: UserView, f: FieldView, room: nat) -> Option<UserView> {
        match (f.tag, f.value) {
            (1, WireValueOf::Bytes(b)) => match text::utf8_decoded(b) {
                Some(s) => Some(UserOf { id: s, ..m }),
                None => None,
            },
            (2, WireValueOf::Bytes(b)) => match text::utf8_decoded(b) {
                Some(s) => Some(UserOf { long_name: s, ..m }),
                None => None,
            },
            (3, WireValueOf::Bytes(b)) => match text::utf8_decoded(b) {
                Some(s) => Some(UserOf { short_name: s, ..m }),
                None => None,
            },
            (4, WireValueOf::Bytes(b)) => Some(UserOf { macaddr: b, ..m }),
            (5, WireValueOf::Varint(v)) => Some(UserOf { hw_model: message::as_int32(v), ..m }),
            (6, WireValueOf::Varint(v)) => Some(UserOf { is_licensed: v != 0, ..m }),
            (7, WireValueOf::Varint(v)) => Some(UserOf { role: message::as_int32(v), ..m }),
            (8, WireValueOf::Bytes(b)) => Some(UserOf { public_key: b, ..m }),
            (9, WireValueOf::Varint(v)) => Some(UserOf { is_unmessagable: Some(v != 0), ..m }),
            _ if 1 <= f.tag <= 9 => None,
            _ => Some(m),
        }
    }

    open spec fn fields(m: UserView) -> Seq<FieldView> {
        let fs = message::with_bytes(Seq::empty(), 1, text::utf8(m.id));
        let fs = message::with_bytes(fs, 2, text::utf8(m.long_name));
        let fs = message::with_bytes(fs, 3, text::utf8(m.short_name));
        let fs = message::with_bytes(fs, 4, m.macaddr);
        let fs = message::with_varint(fs, 5, message::int32_bits(m.hw_model));
        let fs = message::with_bool(fs, 6, m.is_licensed);
        let fs = message::with_varint(fs, 7, message::int32_bits(m.role));
        let fs = message::with_bytes(fs, 8, m.public_key);
        message::with_opt_bool(fs, 9, m.is_unmessagable)
    }

    fn new_blank() -> (m: Self) {
        UserOf {
            id: String::new(),
            long_name: String::new(),
            short_name: String::new(),
            macaddr: Vec::new(),
            hw_model: 0,
            is_licensed: false,
            role: 0,
            public_key: Vec::new(),
            is_unmessagable: None,
        }
    }

    fn merge_field(&mut self, f: Field, room: u32) -> (ok: bool) {
        match (f.tag, f.value) {
            (1, WireValueOf::Bytes(b)) => match text::from_utf8(b) {
                Some(s) => self.id = s,
                None => return false,
            },
            (2, WireValueOf::Bytes(b)) => match text::from_utf8(b) {
                Some(s) => self.long_name = s,
                None => return false,
            },
            (3, WireValueOf::Bytes(b)) => match text::from_utf8(b) {
                Some(s) => self.short_name = s,
                None => return false,
            },
            (4, WireValueOf::Bytes(b)) => self.macaddr = b,
            (5, WireValueOf::Varint(v)) => self.hw_model = to_int32(v),
            (6, WireValueOf::Varint(v)) => self.is_licensed = v != 0,
            (7, WireValueOf::Varint(v)) => self.role = to_int32(v),
            (8, WireValueOf::Bytes(b)) => self.public_key = b,
            (9, WireValueOf::Varint(v)) => self.is_unmessagable = Some(v != 0),
            _ => return !(1 <= f.tag && f.tag <= 9),
        }
        true
    }

    fn encode_to_vec(&self) -> (bytes: Vec<u8>) {
        let mut w = FieldWriter::new();
        w.bytes(1, self.id.as_str().as_bytes());
        w.bytes(2, self.long_name.as_str().as_bytes());
        w.bytes(3, self.short_name.as_str().as_bytes());
        w.bytes(4, &self.macaddr);
        w.varint(5, int32_to_bits(self.hw_model));
        w.boolean(6, self.is_licensed);
        w.varint(7, int32_to_bits(self.role));
        w.bytes(8, &self.public_key);
        w.opt_bool(9, self.is_unmessagable);
        w.finish()
    }
}

impl RoundTrip for UserOf<Vec<u8>, String> {
    open spec fn canonical(m: UserView) -> bool {
        true
    }

    open spec fn settled(m: UserView) -> UserView {
        m
    }

    proof fn lemma_fields(m: UserView) {
        message::lemma_reads_start::<Self>();
        let m0 = Self::blank();
        let fs0 = Seq::<FieldView>::empty();
        let m1 = UserOf { id: m.id, ..m0 };
        let fs1 = message::with_bytes(fs0, 1, text::utf8(m.id));
        text::lemma_utf8(m.id);
        message::lemma_reads_bytes::<Self>(fs0, m0, 1, text::utf8(m.id), m1);
        let m2 = UserOf { long_name: m.long_name, ..m1 };
        let fs2 = message::with_bytes(fs1, 2, text::utf8(m.long_name));
        text::lemma_utf8(m.long_name);
        message::lemma_reads_bytes::<Self>(fs1, m1, 2, text::utf8(m.long_name), m2);
        let m3 = UserOf { short_name: m.short_name, ..m2 };
        let fs3 = message::with_bytes(fs2, 3, text::utf8(m.short_name));
        text::lemma_utf8(m.short_name);
        message::lemma_reads_bytes::<Self>(fs2, m2, 3, text::utf8(m.short_name), m3);
        let m4 = UserOf { macaddr: m.macaddr, ..m3 };
        let fs4 = message::with_bytes(fs3, 4, m.macaddr);
        assert(m.macaddr.len() == 0 ==> m.macaddr =~= Seq::empty());
        message::lemma_reads_bytes::<Self>(fs3, m3, 4, m.macaddr, m4);
        let m5 = UserOf { hw_model: m.hw_model, ..m4 };
        let fs5 = message::with_varint(fs4, 5, message::int32_bits(m.hw_model));
        message::lemma_int32(m.hw_model);
        message::lemma_reads_varint::<Self>(fs4, m4, 5, message::int32_bits(m.hw_model), m5);
        let m6 = UserOf { is_licensed: m.is_licensed, ..m5 };
        let fs6 = message::with_bool(fs5, 6, m.is_licensed);
        message::lemma_reads_bool::<Self>(fs5, m5, 6, m.is_licensed, m6);
        let m7 = UserOf { role: m.role, ..m6 };
        let fs7 = message::with_varint(fs6, 7, message::int32_bits(m.role));
        message::lemma_int32(m.role);
        message::lemma_reads_varint::<Self>(fs6, m6, 7, message::int32_bits(m.role), m7);
        let m8 = UserOf { public_key: m.public_key, ..m7 };
        let fs8 = message::with_bytes(fs7, 8, m.public_key);
        assert(m.public_key.len() == 0 ==> m.public_key =~= Seq::empty());
        message::lemma_reads_bytes::<Self>(fs7, m7, 8, m.public_key, m8);
        let fs9 = message::with_opt_bool(fs8, 9, m.is_unmessagable);
        message::lemma_reads_opt_bool::<Self>(fs8, m8, 9, m.is_unmessagable, m);
    }

    proof fn lemma_settled(m: UserView) {
    }

    proof fn lemma_blank() {
    }

    proof fn lemma_merged(m: UserView, f: FieldView, room: nat) {
    }
}

/// Who a node is, as the node database keeps it.
#[verifier::ext_equal]
#[derive(Debug, PartialEq)]
pub struct UserLiteOf<B, S> {
    pub macaddr: B,
    pub long_name: S,
    pub short_name: S,
    pub hw_model: i32,
    pub is_licensed: bool,
    pub role: i32,
    pub public_key: B,
    pub is_unmessagable: Option<bool>,
}

pub type UserLite = UserLiteOf<Vec<u8>, String>;

pub type UserLiteView = UserLiteOf<Seq<u8>, Seq<char>>;

impl View for UserLiteOf<Vec<u8>, String> {
    type V = UserLiteView;

    open spec fn view(&self) -> UserLiteView {
        UserLiteOf {
            macaddr: self.macaddr@,
            long_name: self.long_name@,
            short_name: self.short_name@,
            hw_model: self.hw_model,
            is_licensed: self.is_licensed,
            role: self.role,
            public_key: self.public_key@,
            is_unmessagable: self.is_unmessagable,
        }
    }
}

impl Clone for UserLiteOf<Vec<u8>, String> {
    fn clone(&self) -> (r: Self)
        ensures
            r@ == self@,
    {
        UserLiteOf {
            macaddr: self.macaddr.clone(),
            long_name: self.long_name.clone(),
            short_name: self.short_name.clone(),
            hw_model: self.hw_model,
            is_licensed: self.is_licensed,
            role: self.role,
            public_key: self.public_key.clone(),
            is_unmessagable: self.is_unmessagable,
        }
    }
}

impl Default for UserLiteOf<Vec<u8>, String> {
    fn default() -> (r: Self)
        ensures
            r@ == Self::blank(),
    {
        Self::new_blank()
    }
}

impl Message for UserLiteOf<Vec<u8>, String> {
    open spec fn blank() -> UserLiteView {
        UserLiteOf {
            macaddr: Seq::empty(),
            long_name: Seq::empty(),
            short_name: Seq::empty(),
            hw_model: 0,
            is_licensed: false,
            role: 0,
            public_key: Seq::empty(),
            is_unmessagable: None,
        }
    }

    open spec fn merged(m: UserLiteView, f: FieldView, room: nat) -> Option<UserLiteView> {
        match (f.tag, f.value) {
            (1, WireValueOf::Bytes(b)) => Some(UserLiteOf { macaddr: b, ..m }),
            (2, WireValueOf::Bytes(b)) => match text::utf8_decoded(b) {
                Some(s) => Some(UserLiteOf { long_name: s, ..m }),
                None => None,
            },
            (3, WireValueOf::Bytes(b)) => match text::utf8_decoded(b) {
                Some(s) => Some(UserLiteOf { short_name: s, ..m }),
                None => None,
            },
            (4, WireValueOf::Varint(v)) => Some(UserLiteOf { hw_model: message::as_int32(v), ..m }),
            (5, WireValueOf::Varint(v)) => Some(UserLiteOf { is_licensed: v != 0, ..m }),
            (6, WireValueOf::Varint(v)) => Some(UserLiteOf { role: message::as_int32(v), ..m }),
            (7, WireValueOf::Bytes(b)) => Some(UserLiteOf { public_key: b, ..m }),
            (9, WireValueOf::Varint(v)) => Some(UserLiteOf { is_unmessagable: Some(v != 0), ..m }),
            _ if 1 <= f.tag <= 7 || f.tag == 9 => None,
            _ => Some(m),
        }
    }

    open spec fn fields(m: UserLiteView) -> Seq<FieldView> {
        let fs = message::with_bytes(Seq::empty(), 1, m.macaddr);
        let fs = message::with_bytes(fs, 2, text::utf8(m.long_name));
        let fs = message::with_bytes(fs, 3, text::utf8(m.short_name));
        let fs = message::with_varint(fs, 4, message::int32_bits(m.hw_model));
        let fs = message::with_bool(fs, 5, m.is_licensed);
        let fs = message::with_varint(fs, 6, message::int32_bits(m.role));
        let fs = message::with_bytes(fs, 7, m.public_key);
        message::with_opt_bool(fs, 9, m.is_unmessagable)
    }

    fn new_blank() -> (m: Self) {
        UserLiteOf {
            macaddr: Vec::new(),
            long_name: String::new(),
            short_name: String::new(),
            hw_model: 0,
            is_licensed: false,
            role: 0,
            public_key: Vec::new(),
            is_unmessagable: None,
        }
    }

    fn merge_field(&mut self, f: Field, room: u32) -> (ok: bool) {
        match (f.tag, f.value) {
            (1, WireValueOf::Bytes(b)) => self.macaddr = b,
            (2, WireValueOf::Bytes(b)) => match text::from_utf8(b) {
                Some(s) => self.long_name = s,
                None => return false,
            },
            (3, WireValueOf::Bytes(b)) => match text::from_utf8(b) {
                Some(s) => self.short_name = s,
                None => return false,
            },
            (4, WireValueOf::Varint(v)) => self.hw_model = to_int32(v),
            (5, WireValueOf::Varint(v)) => self.is_licensed = v != 0,
            (6, WireValueOf::Varint(v)) => self.role = to_int32(v),
            (7, WireValueOf::Bytes(b)) => self.public_key = b,
            (9, WireValueOf::Varint(v)) => self.is_unmessagable = Some(v != 0),
            _ => return !((1 <= f.tag && f.tag <= 7) || f.tag == 9),
        }
        true
    }

    fn encode_to_vec(&self) -> (bytes: Vec<u8>) {
        let mut w = FieldWriter::new();
        w.bytes(1, &self.macaddr);
        w.bytes(2, self.long_name.as_str().as_bytes());
        w.bytes(3, self.short_name.as_str().as_bytes());
        w.varint(4, int32_to_bits(self.hw_model));
        w.boolean(5, self.is_licensed);
        w.varint(6, int32_to_bits(self.role));
        w.bytes(7, &self.public_key);
        w.opt_bool(9, self.is_unmessagable);
        w.finish()
    }
}

impl RoundTrip for UserLiteOf<Vec<u8>, String> {
    open spec fn canonical(m: UserLiteView) -> bool {
        true
    }

    open spec fn settled(m: UserLiteView) -> UserLiteView {
        m
    }

    proof fn lemma_fields(m: UserLiteView) {
        message::lemma_reads_start::<Self>();
        let m0 = Self::blank();
        let fs0 = Seq::<FieldView>::empty();
        let m1 = UserLiteOf { macaddr: m.macaddr, ..m0 };
        let fs1 = message::with_bytes(fs0, 1, m.macaddr);
        assert(m.macaddr.len() == 0 ==> m.macaddr =~= Seq::empty());
        message::lemma_reads_bytes::<Self>(fs0, m0, 1, m.macaddr, m1);
        let m2 = UserLiteOf { long_name: m.long_name, ..m1 };
        let fs2 = message::with_bytes(fs1, 2, text::utf8(m.long_name));
        text::lemma_utf8(m.long_name);
        message::lemma_reads_bytes::<Self>(fs1, m1, 2, text::utf8(m.long_name), m2);
        let m3 = UserLiteOf { short_name: m.short_name, ..m2 };
        let fs3 = message::with_bytes(fs2, 3, text::utf8(m.short_name));
        text::lemma_utf8(m.short_name);
        message::lemma_reads_bytes::<Self>(fs2, m2, 3, text::utf8(m.short_name), m3);
        let m4 = UserLiteOf { hw_model: m.hw_model, ..m3 };
        let fs4 = message::with_varint(fs3, 4, message::int32_bits(m.hw_model));
        message::lemma_int32(m.hw_model);
        message::lemma_reads_varint::<Self>(fs3, m3, 4, message::int32_bits(m.hw_model), m4);
        let m5 = UserLiteOf { is_licensed: m.is_licensed, ..m4 };
        let fs5 = message::with_bool(fs4, 5, m.is_licensed);
        message::lemma_reads_bool::<Self>(fs4, m4, 5, m.is_licensed, m5);
        let m6 = UserLiteOf { role: m.role, ..m5 };
        let fs6 = message::with_varint(fs5, 6, message::int32_bits(m.role));
        message::lemma_int32(m.role);
        message::lemma_reads_varint::<Self>(fs5, m5, 6, message::int32_bits(m.role), m6);
        let m7 = UserLiteOf { public_key: m.public_key, ..m6 };
        let fs7 = message::with_bytes(fs6, 7, m.public_key);
        assert(m.public_key.len() == 0 ==> m.public_key =~= Seq::empty());
        message::lemma_reads_bytes::<Self>(fs6, m6, 7, m.public_key, m7);
        let fs8 = message::with_opt_bool(fs7, 9, m.is_unmessagable);
        message::lemma_reads_opt_bool::<Self>(fs7, m7, 9, m.is_unmessagable, m);
    }

    proof fn lemma_settled(m: UserLiteView) {
    }

    proof fn lemma_blank() {
    }

    proof fn lemma_merged(m: UserLiteView, f: FieldView, room: nat) {
    }
}

/// What the node database keeps of a node.
#[verifier::ext_equal]
#[derive(Debug, PartialEq)]
pub struct NodeInfoLiteOf<B, S> {
    pub num: u32,
    pub user: Option<UserLiteOf<B, S>>,
    /// The wire form of the position.
    pub position: Option<B>,
    /// The bits of the signal-to-noise ratio, an IEEE single.
    pub snr: u32,
    pub last_heard: u32,
    /// The wire form of the device metrics.
    pub device_metrics: Option<B>,
    pub channel: u32,
    pub via_mqtt: bool,
    pub hops_away: Option<u32>,
    pub is_favorite: bool,
    pub is_ignored: bool,
    pub next_hop: u32,
    pub bitfield: u32,
}

pub type NodeInfoLite = NodeInfoLiteOf<Vec<u8>, String>;

pub type NodeInfoLiteView = NodeInfoLiteOf<Seq<u8>, Seq<char>>;

impl View for NodeInfoLiteOf<Vec<u8>, String> {
    type V = NodeInfoLiteView;

    open spec fn view(&self) -> NodeInfoLiteView {
        NodeInfoLiteOf {
            num: self.num,
            user: message::opt_view(self.user),
            position: message::opt_view(self.position),
            snr: self.snr,
            last_heard: self.last_heard,
            device_metrics: message::opt_view(self.device_metrics),
            channel: self.channel,
            via_mqtt: self.via_mqtt,
            hops_away: self.hops_away,
            is_favorite: self.is_favorite,
            is_ignored: self.is_ignored,
            next_hop: self.next_hop,
            bitfield: self.bitfield,
        }
    }
}

impl Clone for NodeInfoLiteOf<Vec<u8>, String> {
    fn clone(&self) -> (r: Self)
        ensures
            r@ == self@,
    {
        NodeInfoLiteOf {
            num: self.num,
            user: match &self.user {
                Some(x) => Some(x.clone()),
                None => None,
            },
            position: match &self.position {
                Some(x) => Some(x.clone()),
                None => None,
            },
            snr: self.snr,
            last_heard: self.last_heard,
            device_metrics: match &self.device_metrics {
                Some(x) => Some(x.clone()),
                None => None,
            },
            channel: self.channel,
            via_mqtt: self.via_mqtt,
            hops_away: self.hops_away,
            is_favorite: self.is_favorite,
            is_ignored: self.is_ignored,
            next_hop: self.next_hop,
            bitfield: self.bitfield,
        }
    }
}

impl Default for NodeInfoLiteOf<Vec<u8>, String> {
    fn default() -> (r: Self)
        ensures
            r@ == Self::blank(),
    {
        Self::new_blank()
    }
}

impl Message for NodeInfoLiteOf<Vec<u8>, String> {
    open spec fn blank() -> NodeInfoLiteView {
        NodeInfoLiteOf {
            num: 0,
            user: None,
            position: None,
            snr: 0,
            last_heard: 0,
            device_metrics: None,
            channel: 0,
            via_mqtt: false,
            hops_away: None,
            is_favorite: false,
            is_ignored: false,
            next_hop: 0,
            bitfield: 0,
        }
    }

    open spec fn merged(m: NodeInfoLiteView, f: FieldView, room: nat) -> Option<NodeInfoLiteView> {
        match (f.tag, f.value) {
            (1, WireValueOf::Varint(v)) => Some(NodeInfoLiteOf { num: message::as_uint32(v), ..m }),
            (2, WireValueOf::Bytes(b)) => match message::merged_bytes::<UserLite>(
                message::or_blank::<UserLite>(m.user),
                b,
                message::inner(room),
            ) {
                Some(x) => Some(NodeInfoLiteOf { user: Some(x), ..m }),
                None => None,
            },
            (3, WireValueOf::Bytes(b)) => match held::held(
                Shape::PositionLite,
                message::or_empty(m.position),
                b,
                message::inner(room),
            ) {
                Some(x) => Some(NodeInfoLiteOf { position: Some(x), ..m }),
                None => None,
            },
            (4, WireValueOf::Fixed32(v)) => Some(NodeInfoLiteOf { snr: v, ..m }),
            (5, WireValueOf::Fixed32(v)) => Some(NodeInfoLiteOf { last_heard: v, ..m }),
            (6, WireValueOf::Bytes(b)) => match held::held(
                Shape::DeviceMetrics,
                message::or_empty(m.device_metrics),
                b,
                message::inner(room),
            ) {
                Some(x) => Some(NodeInfoLiteOf { device_metrics: Some(x), ..m }),
                None => None,
            },
            (7, WireValueOf::Varint(v)) => Some(
                NodeInfoLiteOf { channel: message::as_uint32(v), ..m },
            ),
            (8, WireValueOf::Varint(v)) => Some(NodeInfoLiteOf { via_mqtt: v != 0, ..m }),
            (9, WireValueOf::Varint(v)) => Some(
                NodeInfoLiteOf { hops_away: Some(message::as_uint32(v)), ..m },
            ),
            (10, WireValueOf::Varint(v)) => Some(NodeInfoLiteOf { is_favorite: v != 0, ..m }),
            (11, WireValueOf::Varint(v)) => Some(NodeInfoLiteOf { is_ignored: v != 0, ..m }),
            (12, WireValueOf::Varint(v)) => Some(
                NodeInfoLiteOf { next_hop: message::as_uint32(v), ..m },
            ),
            (13, WireValueOf::Varint(v)) => Some(
                NodeInfoLiteOf { bitfield: message::as_uint32(v), ..m },
            ),
            _ if 1 <= f.tag <= 13 => None,
            _ => Some(m),
        }
    }

    open spec fn fields(m: NodeInfoLiteView) -> Seq<FieldView> {
        let fs = message::with_varint(Seq::empty(), 1, m.num as u64);
        let fs = message::with_message::<UserLite>(fs, 2, m.user);
        let fs = message::with_opt_bytes(fs, 3, m.position);
        let fs = message::with_float(fs, 4, m.snr);
        let fs = message::with_fixed32(fs, 5, m.last_heard);
        let fs = message::with_opt_bytes(fs, 6, m.device_metrics);
        let fs = message::with_varint(fs, 7, m.channel as u64);
        let fs = message::with_bool(fs, 8, m.via_mqtt);
        let fs = message::with_opt_varint(fs, 9, m.hops_away);
        let fs = message::with_bool(fs, 10, m.is_favorite);
        let fs = message::with_bool(fs, 11, m.is_ignored);
        let fs = message::with_varint(fs, 12, m.next_hop as u64);
        message::with_varint(fs, 13, m.bitfield as u64)
    }

    fn new_blank() -> (m: Self) {
        NodeInfoLiteOf {
            num: 0,
            user: None,
            position: None,
            snr: 0,
            last_heard: 0,
            device_metrics: None,
            channel: 0,
            via_mqtt: false,
            hops_away: None,
            is_favorite: false,
            is_ignored: false,
            next_hop: 0,
            bitfield: 0,
        }
    }

    fn merge_field(&mut self, f: Field, room: u32) -> (ok: bool) {
        match (f.tag, f.value) {
            (1, WireValueOf::Varint(v)) => self.num = to_uint32(v),
            (2, WireValueOf::Bytes(b)) => {
                let mut x = match self.user.take() {
                    Some(x) => x,
                    None => UserLite::new_blank(),
                };
                if merge_bytes(&mut x, &b, inner_room(room)).is_err() {
                    return false;
                }
                self.user = Some(x);
            },
            (3, WireValueOf::Bytes(b)) => {
                let x = match self.position.take() {
                    Some(x) => x,
                    None => Vec::new(),
                };
                match hold(Shape::PositionLite, &x, &b, inner_room(room)) {
                    Some(y) => self.position = Some(y),
                    None => return false,
                }
            },
            (4, WireValueOf::Fixed32(v)) => self.snr = v,
            (5, WireValueOf::Fixed32(v)) => self.last_heard = v,
            (6, WireValueOf::Bytes(b)) => {
                let x = match self.device_metrics.take() {
                    Some(x) => x,
                    None => Vec::new(),
                };
                match hold(Shape::DeviceMetrics, &x, &b, inner_room(room)) {
                    Some(y) => self.device_metrics = Some(y),
                    None => return false,
                }
            },
            (7, WireValueOf::Varint(v)) => self.channel = to_uint32(v),
            (8, WireValueOf::Varint(v)) => self.via_mqtt = v != 0,
            (9, WireValueOf::Varint(v)) => self.hops_away = Some(to_uint32(v)),
            (10, WireValueOf::Varint(v)) => self.is_favorite = v != 0,
            (11, WireValueOf::Varint(v)) => self.is_ignored = v != 0,
            (12, WireValueOf::Varint(v)) => self.next_hop = to_uint32(v),
            (13, WireValueOf::Varint(v)) => self.bitfield = to_uint32(v),
            _ => return !(1 <= f.tag && f.tag <= 13),
        }
        true
    }

    fn encode_to_vec(&self) -> (bytes: Vec<u8>) {
        let mut w = FieldWriter::new();
        w.varint(1, self.num as u64);
        proof {
            reveal(message::with_message);
        }
        if let Some(x) = &self.user {
            w.put_message(2, x);
        }
        proof {
            reveal(message::with_opt_bytes);
        }
        if let Some(x) = &self.position {
            w.put_bytes(3, x);
        }
        w.float(4, self.snr);
        w.fixed32(5, self.last_heard);
        if let Some(x) = &self.device_metrics {
            w.put_bytes(6, x);
        }
        w.varint(7, self.channel as u64);
        w.boolean(8, self.via_mqtt);
        w.opt_varint(9, self.hops_away);
        w.boolean(10, self.is_favorite);
        w.boolean(11, self.is_ignored);
        w.varint(12, self.next_hop as u64);
        w.varint(13, self.bitfield as u64);
        w.finish()
    }
}

impl RoundTrip for NodeInfoLiteOf<Vec<u8>, String> {
    open spec fn canonical(m: NodeInfoLiteView) -> bool {
        &&& message::opt_canonical::<UserLite>(m.user)
        &&& m.position matches Some(b) ==> held::is_held(Shape::PositionLite, b)
        &&& m.snr != 0x8000_0000
        &&& m.device_metrics matches Some(b) ==> held::is_held(Shape::DeviceMetrics, b)
    }

    open spec fn settled(m: NodeInfoLiteView) -> NodeInfoLiteView {
        NodeInfoLiteOf {
            user: message::opt_settled::<UserLite>(m.user),
            snr: message::settled_float(m.snr),
            ..m
        }
    }

    proof fn lemma_fields(m: NodeInfoLiteView) {
        message::lemma_reads_start::<Self>();
        let m0 = Self::blank();
        let fs0 = Seq::<FieldView>::empty();
        let m1 = NodeInfoLiteOf { num: m.num, ..m0 };
        let fs1 = message::with_varint(fs0, 1, m.num as u64);
        message::lemma_reads_varint::<Self>(fs0, m0, 1, m.num as u64, m1);
        let m2 = NodeInfoLiteOf { user: m.user, ..m1 };
        let fs2 = message::with_message::<UserLite>(fs1, 2, m.user);
        message::lemma_embedded::<UserLite>(m.user);
        message::lemma_reads_message::<Self, UserLite>(fs1, m1, 2, m.user, m2);
        let m3 = NodeInfoLiteOf { position: m.position, ..m2 };
        let fs3 = message::with_opt_bytes(fs2, 3, m.position);
        message::lemma_reads_opt_bytes::<Self>(fs2, m2, 3, m.position, m3);
        let m4 = NodeInfoLiteOf { snr: m.snr, ..m3 };
        let fs4 = message::with_float(fs3, 4, m.snr);
        message::lemma_reads_float::<Self>(fs3, m3, 4, m.snr, m4);
        let m5 = NodeInfoLiteOf { last_heard: m.last_heard, ..m4 };
        let fs5 = message::with_fixed32(fs4, 5, m.last_heard);
        message::lemma_reads_fixed32::<Self>(fs4, m4, 5, m.last_heard, m5);
        let m6 = NodeInfoLiteOf { device_metrics: m.device_metrics, ..m5 };
        let fs6 = message::with_opt_bytes(fs5, 6, m.device_metrics);
        message::lemma_reads_opt_bytes::<Self>(fs5, m5, 6, m.device_metrics, m6);
        let m7 = NodeInfoLiteOf { channel: m.channel, ..m6 };
        let fs7 = message::with_varint(fs6, 7, m.channel as u64);
        message::lemma_reads_varint::<Self>(fs6, m6, 7, m.channel as u64, m7);
        let m8 = NodeInfoLiteOf { via_mqtt: m.via_mqtt, ..m7 };
        let fs8 = message::with_bool(fs7, 8, m.via_mqtt);
        message::lemma_reads_bool::<Self>(fs7, m7, 8, m.via_mqtt, m8);
        let m9 = NodeInfoLiteOf { hops_away: m.hops_away, ..m8 };
        let fs9 = message::with_opt_varint(fs8, 9, m.hops_away);
        message::lemma_reads_opt_varint::<Self>(fs8, m8, 9, m.hops_away, m9);
        let m10 = NodeInfoLiteOf { is_favorite: m.is_favorite, ..m9 };
        let fs10 = message::with_bool(fs9, 10, m.is_favorite);
        message::lemma_reads_bool::<Self>(fs9, m9, 10, m.is_favorite, m10);
        let m11 = NodeInfoLiteOf { is_ignored: m.is_ignored, ..m10 };
        let fs11 = message::with_bool(fs10, 11, m.is_ignored);
        message::lemma_reads_bool::<Self>(fs10, m10, 11, m.is_ignored, m11);
        let m12 = NodeInfoLiteOf { next_hop: m.next_hop, ..m11 };
        let fs12 = message::with_varint(fs11, 12, m.next_hop as u64);
        message::lemma_reads_varint::<Self>(fs11, m11, 12, m.next_hop as u64, m12);
        let fs13 = message::with_varint(fs12, 13, m.bitfield as u64);
        message::lemma_reads_varint::<Self>(fs12, m12, 13, m.bitfield as u64, m);
    }

    proof fn lemma_settled(m: NodeInfoLiteView) {
        let fs0 = Seq::<FieldView>::empty();
        let fs1 = message::with_varint(fs0, 1, m.num as u64);
        message::lemma_settled_message::<UserLite>(fs1, 2, m.user);
        let fs2 = message::with_message::<UserLite>(fs1, 2, m.user);
        let fs3 = message::with_opt_bytes(fs2, 3, m.position);
        message::lemma_settled_float(fs3, 4, m.snr);
    }

    proof fn lemma_blank() {
    }

    proof fn lemma_merged(m: NodeInfoLiteView, f: FieldView, room: nat) {
        match (f.tag, f.value) {
            (2, WireValueOf::Bytes(b)) => message::lemma_merged_message::<UserLite>(
                m.user,
                b,
                message::inner(room),
            ),
            (3, WireValueOf::Bytes(b)) => held::lemma_held(
                Shape::PositionLite,
                message::or_empty(m.position),
                b,
                message::inner(room),
            ),
            (6, WireValueOf::Bytes(b)) => held::lemma_held(
                Shape::DeviceMetrics,
                message::or_empty(m.device_metrics),
                b,
                message::inner(room),
            ),
            _ => {},
        }
    }
}

/// What the phone is told of a node.
#[verifier::ext_equal]
#[derive(Debug, PartialEq)]
pub struct NodeInfoOf<B, S> {
    pub num: u32,
    pub user: Option<UserOf<B, S>>,
    /// The wire form of the position.
    pub position: Option<B>,
    /// The bits of the signal-to-noise ratio, an IEEE single.
    pub snr: u32,
    pub last_heard: u32,
    /// The wire form of the device metrics.
    pub device_metrics: Option<B>,
    pub channel: u32,
    pub via_mqtt: bool,
    pub hops_away: Option<u32>,
    pub is_favorite: bool,
    pub is_ignored: bool,
    pub is_key_manually_verified: bool,
    pub is_muted: bool,
}

pub type NodeInfo = NodeInfoOf<Vec<u8>, String>;

pub type NodeInfoView = NodeInfoOf<Seq<u8>, Seq<char>>;

impl View for NodeInfoOf<Vec<u8>, String> {
    type V = NodeInfoView;

    open spec fn view(&self) -> NodeInfoView {
        NodeInfoOf {
            num: self.num,
            user: message::opt_view(self.user),
            position: message::opt_view(self.position),
            snr: self.snr,
            last_heard: self.last_heard,
            device_metrics: message::opt_view(self.device_metrics),
            channel: self.channel,
            via_mqtt: self.via_mqtt,
            hops_away: self.hops_away,
            is_favorite: self.is_favorite,
            is_ignored: self.is_ignored,
            is_key_manually_verified: self.is_key_manually_verified,
            is_muted: self.is_muted,
        }
    }
}

impl Clone for NodeInfoOf<Vec<u8>, String> {
    fn clone(&self) -> (r: Self)
        ensures
            r@ == self@,
    {
        NodeInfoOf {
            num: self.num,
            user: match &self.user {
                Some(x) => Some(x.clone()),
                None => None,
            },
            position: match &self.position {
                Some(x) => Some(x.clone()),
                None => None,
            },
            snr: self.snr,
            last_heard: self.last_heard,
            device_metrics: match &self.device_metrics {
                Some(x) => Some(x.clone()),
                None => None,
            },
            channel: self.channel,
            via_mqtt: self.via_mqtt,
            hops_away: self.hops_away,
            is_favorite: self.is_favorite,
            is_ignored: self.is_ignored,
            is_key_manually_verified: self.is_key_manually_verified,
            is_muted: self.is_muted,
        }
    }
}

impl Default for NodeInfoOf<Vec<u8>, String> {
    fn default() -> (r: Self)
        ensures
            r@ == Self::blank(),
    {
        Self::new_blank()
    }
}

impl Message for NodeInfoOf<Vec<u8>, String> {
    open spec fn blank() -> NodeInfoView {
        NodeInfoOf {
            num: 0,
            user: None,
            position: None,
            snr: 0,
            last_heard: 0,
            device_metrics: None,
            channel: 0,
            via_mqtt: false,
            hops_away: None,
            is_favorite: false,
            is_ignored: false,
            is_key_manually_verified: false,
            is_muted: false,
        }
    }

    open spec fn merged(m: NodeInfoView, f: FieldView, room: nat) -> Option<NodeInfoView> {
        match (f.tag, f.value) {
            (1, WireValueOf::Varint(v)) => Some(NodeInfoOf { num: message::as_uint32(v), ..m }),
            (2, WireValueOf::Bytes(b)) => match message::merged_bytes::<User>(
                message::or_blank::<User>(m.user),
                b,
                message::inner(room),
            ) {
                Some(x) => Some(NodeInfoOf { user: Some(x), ..m }),
                None => None,
            },
            (3, WireValueOf::Bytes(b)) => match held::held(
                Shape::Position,
                message::or_empty(m.position),
                b,
                message::inner(room),
            ) {
                Some(x) => Some(NodeInfoOf { position: Some(x), ..m }),
                None => None,
            },
            (4, WireValueOf::Fixed32(v)) => Some(NodeInfoOf { snr: v, ..m }),
            (5, WireValueOf::Fixed32(v)) => Some(NodeInfoOf { last_heard: v, ..m }),
            (6, WireValueOf::Bytes(b)) => match held::held(
                Shape::DeviceMetrics,
                message::or_empty(m.device_metrics),
                b,
                message::inner(room),
            ) {
                Some(x) => Some(NodeInfoOf { device_metrics: Some(x), ..m }),
                None => None,
            },
            (7, WireValueOf::Varint(v)) => Some(NodeInfoOf { channel: message::as_uint32(v), ..m }),
            (8, WireValueOf::Varint(v)) => Some(NodeInfoOf { via_mqtt: v != 0, ..m }),
            (9, WireValueOf::Varint(v)) => Some(
                NodeInfoOf { hops_away: Some(message::as_uint32(v)), ..m },
            ),
            (10, WireValueOf::Varint(v)) => Some(NodeInfoOf { is_favorite: v != 0, ..m }),
            (11, WireValueOf::Varint(v)) => Some(NodeInfoOf { is_ignored: v != 0, ..m }),
            (12, WireValueOf::Varint(v)) => Some(
                NodeInfoOf { is_key_manually_verified: v != 0, ..m },
            ),
            (13, WireValueOf::Varint(v)) => Some(NodeInfoOf { is_muted: v != 0, ..m }),
            _ if 1 <= f.tag <= 13 => None,
            _ => Some(m),
        }
    }

    open spec fn fields(m: NodeInfoView) -> Seq<FieldView> {
        let fs = message::with_varint(Seq::empty(), 1, m.num as u64);
        let fs = message::with_message::<User>(fs, 2, m.user);
        let fs = message::with_opt_bytes(fs, 3, m.position);
        let fs = message::with_float(fs, 4, m.snr);
        let fs = message::with_fixed32(fs, 5, m.last_heard);
        let fs = message::with_opt_bytes(fs, 6, m.device_metrics);
        let fs = message::with_varint(fs, 7, m.channel as u64);
        let fs = message::with_bool(fs, 8, m.via_mqtt);
        let fs = message::with_opt_varint(fs, 9, m.hops_away);
        let fs = message::with_bool(fs, 10, m.is_favorite);
        let fs = message::with_bool(fs, 11, m.is_ignored);
        let fs = message::with_bool(fs, 12, m.is_key_manually_verified);
        message::with_bool(fs, 13, m.is_muted)
    }

    fn new_blank() -> (m: Self) {
        NodeInfoOf {
            num: 0,
            user: None,
            position: None,
            snr: 0,
            last_heard: 0,
            device_metrics: None,
            channel: 0,
            via_mqtt: false,
            hops_away: None,
            is_favorite: false,
            is_ignored: false,
            is_key_manually_verified: false,
            is_muted: false,
        }
    }

    fn merge_field(&mut self, f: Field, room: u32) -> (ok: bool) {
        match (f.tag, f.value) {
            (1, WireValueOf::Varint(v)) => self.num = to_uint32(v),
            (2, WireValueOf::Bytes(b)) => {
                let mut x = match self.user.take() {
                    Some(x) => x,
                    None => User::new_blank(),
                };
                if merge_bytes(&mut x, &b, inner_room(room)).is_err() {
                    return false;
                }
                self.user = Some(x);
            },
            (3, WireValueOf::Bytes(b)) => {
                let x = match self.position.take() {
                    Some(x) => x,
                    None => Vec::new(),
                };
                match hold(Shape::Position, &x, &b, inner_room(room)) {
                    Some(y) => self.position = Some(y),
                    None => return false,
                }
            },
            (4, WireValueOf::Fixed32(v)) => self.snr = v,
            (5, WireValueOf::Fixed32(v)) => self.last_heard = v,
            (6, WireValueOf::Bytes(b)) => {
                let x = match self.device_metrics.take() {
                    Some(x) => x,
                    None => Vec::new(),
                };
                match hold(Shape::DeviceMetrics, &x, &b, inner_room(room)) {
                    Some(y) => self.device_metrics = Some(y),
                    None => return false,
                }
            },
            (7, WireValueOf::Varint(v)) => self.channel = to_uint32(v),
            (8, WireValueOf::Varint(v)) => self.via_mqtt = v != 0,
            (9, WireValueOf::Varint(v)) => self.hops_away = Some(to_uint32(v)),
            (10, WireValueOf::Varint(v)) => self.is_favorite = v != 0,
            (11, WireValueOf::Varint(v)) => self.is_ignored = v != 0,
            (12, WireValueOf::Varint(v)) => self.is_key_manually_verified = v != 0,
            (13, WireValueOf::Varint(v)) => self.is_muted = v != 0,
            _ => return !(1 <= f.tag && f.tag <= 13),
        }
        true
    }

    fn encode_to_vec(&self) -> (bytes: Vec<u8>) {
        let mut w = FieldWriter::new();
        w.varint(1, self.num as u64);
        proof {
            reveal(message::with_message);
        }
        if let Some(x) = &self.user {
            w.put_message(2, x);
        }
        proof {
            reveal(message::with_opt_bytes);
        }
        if let Some(x) = &self.position {
            w.put_bytes(3, x);
        }
        w.float(4, self.snr);
        w.fixed32(5, self.last_heard);
        if let Some(x) = &self.device_metrics {
            w.put_bytes(6, x);
        }
        w.varint(7, self.channel as u64);
        w.boolean(8, self.via_mqtt);
        w.opt_varint(9, self.hops_away);
        w.boolean(10, self.is_favorite);
        w.boolean(11, self.is_ignored);
        w.boolean(12, self.is_key_manually_verified);
        w.boolean(13, self.is_muted);
        w.finish()
    }
}

impl RoundTrip for NodeInfoOf<Vec<u8>, String> {
    open spec fn canonical(m: NodeInfoView) -> bool {
        &&& message::opt_canonical::<User>(m.user)
        &&& m.position matches Some(b) ==> held::is_held(Shape::Position, b)
        &&& m.snr != 0x8000_0000
        &&& m.device_metrics matches Some(b) ==> held::is_held(Shape::DeviceMetrics, b)
    }

    open spec fn settled(m: NodeInfoView) -> NodeInfoView {
        NodeInfoOf {
            user: message::opt_settled::<User>(m.user),
            snr: message::settled_float(m.snr),
            ..m
        }
    }

    proof fn lemma_fields(m: NodeInfoView) {
        message::lemma_reads_start::<Self>();
        let m0 = Self::blank();
        let fs0 = Seq::<FieldView>::empty();
        let m1 = NodeInfoOf { num: m.num, ..m0 };
        let fs1 = message::with_varint(fs0, 1, m.num as u64);
        message::lemma_reads_varint::<Self>(fs0, m0, 1, m.num as u64, m1);
        let m2 = NodeInfoOf { user: m.user, ..m1 };
        let fs2 = message::with_message::<User>(fs1, 2, m.user);
        message::lemma_embedded::<User>(m.user);
        message::lemma_reads_message::<Self, User>(fs1, m1, 2, m.user, m2);
        let m3 = NodeInfoOf { position: m.position, ..m2 };
        let fs3 = message::with_opt_bytes(fs2, 3, m.position);
        message::lemma_reads_opt_bytes::<Self>(fs2, m2, 3, m.position, m3);
        let m4 = NodeInfoOf { snr: m.snr, ..m3 };
        let fs4 = message::with_float(fs3, 4, m.snr);
        message::lemma_reads_float::<Self>(fs3, m3, 4, m.snr, m4);
        let m5 = NodeInfoOf { last_heard: m.last_heard, ..m4 };
        let fs5 = message::with_fixed32(fs4, 5, m.last_heard);
        message::lemma_reads_fixed32::<Self>(fs4, m4, 5, m.last_heard, m5);
        let m6 = NodeInfoOf { device_metrics: m.device_metrics, ..m5 };
        let fs6 = message::with_opt_bytes(fs5, 6, m.device_metrics);
        message::lemma_reads_opt_bytes::<Self>(fs5, m5, 6, m.device_metrics, m6);
        let m7 = NodeInfoOf { channel: m.channel, ..m6 };
        let fs7 = message::with_varint(fs6, 7, m.channel as u64);
        message::lemma_reads_varint::<Self>(fs6, m6, 7, m.channel as u64, m7);
        let m8 = NodeInfoOf { via_mqtt: m.via_mqtt, ..m7 };
        let fs8 = message::with_bool(fs7, 8, m.via_mqtt);
        message::lemma_reads_bool::<Self>(fs7, m7, 8, m.via_mqtt, m8);
        let m9 = NodeInfoOf { hops_away: m.hops_away, ..m8 };
        let fs9 = message::with_opt_varint(fs8, 9, m.hops_away);
        message::lemma_reads_opt_varint::<Self>(fs8, m8, 9, m.hops_away, m9);
        let m10 = NodeInfoOf { is_favorite: m.is_favorite, ..m9 };
        let fs10 = message::with_bool(fs9, 10, m.is_favorite);
        message::lemma_reads_bool::<Self>(fs9, m9, 10, m.is_favorite, m10);
        let m11 = NodeInfoOf { is_ignored: m.is_ignored, ..m10 };
        let fs11 = message::with_bool(fs10, 11, m.is_ignored);
        message::lemma_reads_bool::<Self>(fs10, m10, 11, m.is_ignored, m11);
        let m12 = NodeInfoOf { is_key_manually_verified: m.is_key_manually_verified, ..m11 };
        let fs12 = message::with_bool(fs11, 12, m.is_key_manually_verified);
        message::lemma_reads_bool::<Self>(fs11, m11, 12, m.is_key_manually_verified, m12);
        let fs13 = message::with_bool(fs12, 13, m.is_muted);
        message::lemma_reads_bool::<Self>(fs12, m12, 13, m.is_muted, m);
    }

    proof fn lemma_settled(m: NodeInfoView) {
        let fs0 = Seq::<FieldView>::empty();
        let fs1 = message::with_varint(fs0, 1, m.num as u64);
        message::lemma_settled_message::<User>(fs1, 2, m.user);
        let fs2 = message::with_message::<User>(fs1, 2, m.user);
        let fs3 = message::with_opt_bytes(fs2, 3, m.position);
        message::lemma_settled_float(fs3, 4, m.snr);
    }

    proof fn lemma_blank() {
    }

    proof fn lemma_merged(m: NodeInfoView, f: FieldView, room: nat) {
        match (f.tag, f.value) {
            (2, WireValueOf::Bytes(b)) => message::lemma_merged_message::<User>(
                m.user,
                b,
                message::inner(room),
            ),
            (3, WireValueOf::Bytes(b)) => held::lemma_held(
                Shape::Position,
                message::or_empty(m.position),
                b,
                message::inner(room),
            ),
            (6, WireValueOf::Bytes(b)) => held::lemma_held(
                Shape::DeviceMetrics,
                message::or_empty(m.device_metrics),
                b,
                message::inner(room),
            ),
            _ => {},
        }
    }
}

/// What the phone is told of this node.
#[verifier::ext_equal]
#[derive(Debug, PartialEq)]
pub struct MyNodeInfoOf<B, S> {
    pub my_node_num: u32,
    pub reboot_count: u32,
    pub min_app_version: u32,
    pub device_id: B,
    pub pio_env: S,
    pub firmware_edition: i32,
    pub nodedb_count: u32,
}

pub type MyNodeInfo = MyNodeInfoOf<Vec<u8>, String>;

pub type MyNodeInfoView = MyNodeInfoOf<Seq<u8>, Seq<char>>;

impl View for MyNodeInfoOf<Vec<u8>, String> {
    type V = MyNodeInfoView;

    open spec fn view(&self) -> MyNodeInfoView {
        MyNodeInfoOf {
            my_node_num: self.my_node_num,
            reboot_count: self.reboot_count,
            min_app_version: self.min_app_version,
            device_id: self.device_id@,
            pio_env: self.pio_env@,
            firmware_edition: self.firmware_edition,
            nodedb_count: self.nodedb_count,
        }
    }
}

impl Clone for MyNodeInfoOf<Vec<u8>, String> {
    fn clone(&self) -> (r: Self)
        ensures
            r@ == self@,
    {
        MyNodeInfoOf {
            my_node_num: self.my_node_num,
            reboot_count: self.reboot_count,
            min_app_version: self.min_app_version,
            device_id: self.device_id.clone(),
            pio_env: self.pio_env.clone(),
            firmware_edition: self.firmware_edition,
            nodedb_count: self.nodedb_count,
        }
    }
}

impl Default for MyNodeInfoOf<Vec<u8>, String> {
    fn default() -> (r: Self)
        ensures
            r@ == Self::blank(),
    {
        Self::new_blank()
    }
}

impl Message for MyNodeInfoOf<Vec<u8>, String> {
    open spec fn blank() -> MyNodeInfoView {
        MyNodeInfoOf {
            my_node_num: 0,
            reboot_count: 0,
            min_app_version: 0,
            device_id: Seq::empty(),
            pio_env: Seq::empty(),
            firmware_edition: 0,
            nodedb_count: 0,
        }
    }

    open spec fn merged(m: MyNodeInfoView, f: FieldView, room: nat) -> Option<MyNodeInfoView> {
        match (f.tag, f.value) {
            (1, WireValueOf::Varint(v)) => Some(
                MyNodeInfoOf { my_node_num: message::as_uint32(v), ..m },
            ),
            (8, WireValueOf::Varint(v)) => Some(
                MyNodeInfoOf { reboot_count: message::as_uint32(v), ..m },
            ),
            (11, WireValueOf::Varint(v)) => Some(
                MyNodeInfoOf { min_app_version: message::as_uint32(v), ..m },
            ),
            (12, WireValueOf::Bytes(b)) => Some(MyNodeInfoOf { device_id: b, ..m }),
            (13, WireValueOf::Bytes(b)) => match text::utf8_decoded(b) {
                Some(s) => Some(MyNodeInfoOf { pio_env: s, ..m }),
                None => None,
            },
            (14, WireValueOf::Varint(v)) => Some(
                MyNodeInfoOf { firmware_edition: message::as_int32(v), ..m },
            ),
            (15, WireValueOf::Varint(v)) => Some(
                MyNodeInfoOf { nodedb_count: message::as_uint32(v), ..m },
            ),
            _ if f.tag == 1 || f.tag == 8 || 11 <= f.tag <= 15 => None,
            _ => Some(m),
        }
    }

    open spec fn fields(m: MyNodeInfoView) -> Seq<FieldView> {
        let fs = message::with_varint(Seq::empty(), 1, m.my_node_num as u64);
        let fs = message::with_varint(fs, 8, m.reboot_count as u64);
        let fs = message::with_varint(fs, 11, m.min_app_version as u64);
        let fs = message::with_bytes(fs, 12, m.device_id);
        let fs = message::with_bytes(fs, 13, text::utf8(m.pio_env));
        let fs = message::with_varint(fs, 14, message::int32_bits(m.firmware_edition));
        message::with_varint(fs, 15, m.nodedb_count as u64)
    }

    fn new_blank() -> (m: Self) {
        MyNodeInfoOf {
            my_node_num: 0,
            reboot_count: 0,
            min_app_version: 0,
            device_id: Vec::new(),
            pio_env: String::new(),
            firmware_edition: 0,
            nodedb_count: 0,
        }
    }

    fn merge_field(&mut self, f: Field, room: u32) -> (ok: bool) {
        match (f.tag, f.value) {
            (1, WireValueOf::Varint(v)) => self.my_node_num = to_uint32(v),
            (8, WireValueOf::Varint(v)) => self.reboot_count = to_uint32(v),
            (11, WireValueOf::Varint(v)) => self.min_app_version = to_uint32(v),
            (12, WireValueOf::Bytes(b)) => self.device_id = b,
            (13, WireValueOf::Bytes(b)) => match text::from_utf8(b) {
                Some(s) => self.pio_env = s,
                None => return false,
            },
            (14, WireValueOf::Varint(v)) => self.firmware_edition = to_int32(v),
            (15, WireValueOf::Varint(v)) => self.nodedb_count = to_uint32(v),
            _ => return !(f.tag == 1 || f.tag == 8 || (11 <= f.tag && f.tag <= 15)),
        }
        true
    }

    fn encode_to_vec(&self) -> (bytes: Vec<u8>) {
        let mut w = FieldWriter::new();
        w.varint(1, self.my_node_num as u64);
        w.varint(8, self.reboot_count as u64);
        w.varint(11, self.min_app_version as u64);
        w.bytes(12, &self.device_id);
        w.bytes(13, self.pio_env.as_str().as_bytes());
        w.varint(14, int32_to_bits(self.firmware_edition));
        w.varint(15, self.nodedb_count as u64);
        w.finish()
    }
}

impl RoundTrip for MyNodeInfoOf<Vec<u8>, String> {
    open spec fn canonical(m: MyNodeInfoView) -> bool {
        true
    }

    open spec fn settled(m: MyNodeInfoView) -> MyNodeInfoView {
        m
    }

    proof fn lemma_fields(m: MyNodeInfoView) {
        message::lemma_reads_start::<Self>();
        let m0 = Self::blank();
        let fs0 = Seq::<FieldView>::empty();
        let m1 = MyNodeInfoOf { my_node_num: m.my_node_num, ..m0 };
        let fs1 = message::with_varint(fs0, 1, m.my_node_num as u64);
        message::lemma_reads_varint::<Self>(fs0, m0, 1, m.my_node_num as u64, m1);
        let m2 = MyNodeInfoOf { reboot_count: m.reboot_count, ..m1 };
        let fs2 = message::with_varint(fs1, 8, m.reboot_count as u64);
        message::lemma_reads_varint::<Self>(fs1, m1, 8, m.reboot_count as u64, m2);
        let m3 = MyNodeInfoOf { min_app_version: m.min_app_version, ..m2 };
        let fs3 = message::with_varint(fs2, 11, m.min_app_version as u64);
        message::lemma_reads_varint::<Self>(fs2, m2, 11, m.min_app_version as u64, m3);
        let m4 = MyNodeInfoOf { device_id: m.device_id, ..m3 };
        let fs4 = message::with_bytes(fs3, 12, m.device_id);
        assert(m.device_id.len() == 0 ==> m.device_id =~= Seq::empty());
        message::lemma_reads_bytes::<Self>(fs3, m3, 12, m.device_id, m4);
        let m5 = MyNodeInfoOf { pio_env: m.pio_env, ..m4 };
        let fs5 = message::with_bytes(fs4, 13, text::utf8(m.pio_env));
        text::lemma_utf8(m.pio_env);
        message::lemma_reads_bytes::<Self>(fs4, m4, 13, text::utf8(m.pio_env), m5);
        let m6 = MyNodeInfoOf { firmware_edition: m.firmware_edition, ..m5 };
        let fs6 = message::with_varint(fs5, 14, message::int32_bits(m.firmware_edition));
        message::lemma_int32(m.firmware_edition);
        message::lemma_reads_varint::<Self>(
            fs5,
            m5,
            14,
            message::int32_bits(m.firmware_edition),
            m6,
        );
        let fs7 = message::with_varint(fs6, 15, m.nodedb_count as u64);
        message::lemma_reads_varint::<Self>(fs6, m6, 15, m.nodedb_count as u64, m);
    }

    proof fn lemma_settled(m: MyNodeInfoView) {
    }

    proof fn lemma_blank() {
    }

    proof fn lemma_merged(m: MyNodeInfoView, f: FieldView, room: nat) {
    }
}

/// What the phone is told of the device.
#[verifier::ext_equal]
#[derive(Debug, PartialEq)]
pub struct DeviceMetadataOf<S> {
    pub firmware_version: S,
    pub device_state_version: u32,
    pub can_shutdown: bool,
    pub has_wifi: bool,
    pub has_bluetooth: bool,
    pub has_ethernet: bool,
    pub role: i32,
    pub position_flags: u32,
    pub hw_model: i32,
    pub has_remote_hardware: bool,
    pub has_pkc: bool,
    pub excluded_modules: u32,
}

pub type DeviceMetadata = DeviceMetadataOf<String>;

pub type DeviceMetadataView = DeviceMetadataOf<Seq<char>>;

impl View for DeviceMetadataOf<String> {
    type V = DeviceMetadataView;

    open spec fn view(&self) -> DeviceMetadataView {
        DeviceMetadataOf {
            firmware_version: self.firmware_version@,
            device_state_version: self.device_state_version,
            can_shutdown: self.can_shutdown,
            has_wifi: self.has_wifi,
            has_bluetooth: self.has_bluetooth,
            has_ethernet: self.has_ethernet,
            role: self.role,
            position_flags: self.position_flags,
            hw_model: self.hw_model,
            has_remote_hardware: self.has_remote_hardware,
            has_pkc: self.has_pkc,
            excluded_modules: self.excluded_modules,
        }
    }
}

impl Clone for DeviceMetadataOf<String> {
    fn clone(&self) -> (r: Self)
        ensures
            r@ == self@,
    {
        DeviceMetadataOf {
            firmware_version: self.firmware_version.clone(),
            device_state_version: self.device_state_version,
            can_shutdown: self.can_shutdown,
            has_wifi: self.has_wifi,
            has_bluetooth: self.has_bluetooth,
            has_ethernet: self.has_ethernet,
            role: self.role,
            position_flags: self.position_flags,
            hw_model: self.hw_model,
            has_remote_hardware: self.has_remote_hardware,
            has_pkc: self.has_pkc,
            excluded_modules: self.excluded_modules,
        }
    }
}

impl Default for DeviceMetadataOf<String> {
    fn default() -> (r: Self)
        ensures
            r@ == Self::blank(),
    {
        Self::new_blank()
    }
}

impl Message for DeviceMetadataOf<String> {
    open spec fn blank() -> DeviceMetadataView {
        DeviceMetadataOf {
            firmware_version: Seq::empty(),
            device_state_version: 0,
            can_shutdown: false,
            has_wifi: false,
            has_bluetooth: false,
            has_ethernet: false,
            role: 0,
            position_flags: 0,
            hw_model: 0,
            has_remote_hardware: false,
            has_pkc: false,
            excluded_modules: 0,
        }
    }

    open spec fn merged(m: DeviceMetadataView, f: FieldView, room: nat) -> Option<
        DeviceMetadataView,
    > {
        match (f.tag, f.value) {
            (1, WireValueOf::Bytes(b)) => match text::utf8_decoded(b) {
                Some(s) => Some(DeviceMetadataOf { firmware_version: s, ..m }),
                None => None,
            },
            (2, WireValueOf::Varint(v)) => Some(
                DeviceMetadataOf { device_state_version: message::as_uint32(v), ..m },
            ),
            (3, WireValueOf::Varint(v)) => Some(DeviceMetadataOf { can_shutdown: v != 0, ..m }),
            (4, WireValueOf::Varint(v)) => Some(DeviceMetadataOf { has_wifi: v != 0, ..m }),
            (5, WireValueOf::Varint(v)) => Some(DeviceMetadataOf { has_bluetooth: v != 0, ..m }),
            (6, WireValueOf::Varint(v)) => Some(DeviceMetadataOf { has_ethernet: v != 0, ..m }),
            (7, WireValueOf::Varint(v)) => Some(
                DeviceMetadataOf { role: message::as_int32(v), ..m },
            ),
            (8, WireValueOf::Varint(v)) => Some(
                DeviceMetadataOf { position_flags: message::as_uint32(v), ..m },
            ),
            (9, WireValueOf::Varint(v)) => Some(
                DeviceMetadataOf { hw_model: message::as_int32(v), ..m },
            ),
            (10, WireValueOf::Varint(v)) => Some(
                DeviceMetadataOf { has_remote_hardware: v != 0, ..m },
            ),
            (11, WireValueOf::Varint(v)) => Some(DeviceMetadataOf { has_pkc: v != 0, ..m }),
            (12, WireValueOf::Varint(v)) => Some(
                DeviceMetadataOf { excluded_modules: message::as_uint32(v), ..m },
            ),
            _ if 1 <= f.tag <= 12 => None,
            _ => Some(m),
        }
    }

    open spec fn fields(m: DeviceMetadataView) -> Seq<FieldView> {
        let fs = message::with_bytes(Seq::empty(), 1, text::utf8(m.firmware_version));
        let fs = message::with_varint(fs, 2, m.device_state_version as u64);
        let fs = message::with_bool(fs, 3, m.can_shutdown);
        let fs = message::with_bool(fs, 4, m.has_wifi);
        let fs = message::with_bool(fs, 5, m.has_bluetooth);
        let fs = message::with_bool(fs, 6, m.has_ethernet);
        let fs = message::with_varint(fs, 7, message::int32_bits(m.role));
        let fs = message::with_varint(fs, 8, m.position_flags as u64);
        let fs = message::with_varint(fs, 9, message::int32_bits(m.hw_model));
        let fs = message::with_bool(fs, 10, m.has_remote_hardware);
        let fs = message::with_bool(fs, 11, m.has_pkc);
        message::with_varint(fs, 12, m.excluded_modules as u64)
    }

    fn new_blank() -> (m: Self) {
        DeviceMetadataOf {
            firmware_version: String::new(),
            device_state_version: 0,
            can_shutdown: false,
            has_wifi: false,
            has_bluetooth: false,
            has_ethernet: false,
            role: 0,
            position_flags: 0,
            hw_model: 0,
            has_remote_hardware: false,
            has_pkc: false,
            excluded_modules: 0,
        }
    }

    fn merge_field(&mut self, f: Field, room: u32) -> (ok: bool) {
        match (f.tag, f.value) {
            (1, WireValueOf::Bytes(b)) => match text::from_utf8(b) {
                Some(s) => self.firmware_version = s,
                None => return false,
            },
            (2, WireValueOf::Varint(v)) => self.device_state_version = to_uint32(v),
            (3, WireValueOf::Varint(v)) => self.can_shutdown = v != 0,
            (4, WireValueOf::Varint(v)) => self.has_wifi = v != 0,
            (5, WireValueOf::Varint(v)) => self.has_bluetooth = v != 0,
            (6, WireValueOf::Varint(v)) => self.has_ethernet = v != 0,
            (7, WireValueOf::Varint(v)) => self.role = to_int32(v),
            (8, WireValueOf::Varint(v)) => self.position_flags = to_uint32(v),
            (9, WireValueOf::Varint(v)) => self.hw_model = to_int32(v),
            (10, WireValueOf::Varint(v)) => self.has_remote_hardware = v != 0,
            (11, WireValueOf::Varint(v)) => self.has_pkc = v != 0,
            (12, WireValueOf::Varint(v)) => self.excluded_modules = to_uint32(v),
            _ => return !(1 <= f.tag && f.tag <= 12),
        }
        true
    }

    fn encode_to_vec(&self) -> (bytes: Vec<u8>) {
        let mut w = FieldWriter::new();
        w.bytes(1, self.firmware_version.as_str().as_bytes());
        w.varint(2, self.device_state_version as u64);
        w.boolean(3, self.can_shutdown);
        w.boolean(4, self.has_wifi);
        w.boolean(5, self.has_bluetooth);
        w.boolean(6, self.has_ethernet);
        w.varint(7, int32_to_bits(self.role));
        w.varint(8, self.position_flags as u64);
        w.varint(9, int32_to_bits(self.hw_model));
        w.boolean(10, self.has_remote_hardware);
        w.boolean(11, self.has_pkc);
        w.varint(12, self.excluded_modules as u64);
        w.finish()
    }
}

impl RoundTrip for DeviceMetadataOf<String> {
    open spec fn canonical(m: DeviceMetadataView) -> bool {
        true
    }

    open spec fn settled(m: DeviceMetadataView) -> DeviceMetadataView {
        m
    }

    proof fn lemma_fields(m: DeviceMetadataView) {
        message::lemma_reads_start::<Self>();
        let m0 = Self::blank();
        let fs0 = Seq::<FieldView>::empty();
        let m1 = DeviceMetadataOf { firmware_version: m.firmware_version, ..m0 };
        let fs1 = message::with_bytes(fs0, 1, text::utf8(m.firmware_version));
        text::lemma_utf8(m.firmware_version);
        message::lemma_reads_bytes::<Self>(fs0, m0, 1, text::utf8(m.firmware_version), m1);
        let m2 = DeviceMetadataOf { device_state_version: m.device_state_version, ..m1 };
        let fs2 = message::with_varint(fs1, 2, m.device_state_version as u64);
        message::lemma_reads_varint::<Self>(fs1, m1, 2, m.device_state_version as u64, m2);
        let m3 = DeviceMetadataOf { can_shutdown: m.can_shutdown, ..m2 };
        let fs3 = message::with_bool(fs2, 3, m.can_shutdown);
        message::lemma_reads_bool::<Self>(fs2, m2, 3, m.can_shutdown, m3);
        let m4 = DeviceMetadataOf { has_wifi: m.has_wifi, ..m3 };
        let fs4 = message::with_bool(fs3, 4, m.has_wifi);
        message::lemma_reads_bool::<Self>(fs3, m3, 4, m.has_wifi, m4);
        let m5 = DeviceMetadataOf { has_bluetooth: m.has_bluetooth, ..m4 };
        let fs5 = message::with_bool(fs4, 5, m.has_bluetooth);
        message::lemma_reads_bool::<Self>(fs4, m4, 5, m.has_bluetooth, m5);
        let m6 = DeviceMetadataOf { has_ethernet: m.has_ethernet, ..m5 };
        let fs6 = message::with_bool(fs5, 6, m.has_ethernet);
        message::lemma_reads_bool::<Self>(fs5, m5, 6, m.has_ethernet, m6);
        let m7 = DeviceMetadataOf { role: m.role, ..m6 };
        let fs7 = message::with_varint(fs6, 7, message::int32_bits(m.role));
        message::lemma_int32(m.role);
        message::lemma_reads_varint::<Self>(fs6, m6, 7, message::int32_bits(m.role), m7);
        let m8 = DeviceMetadataOf { position_flags: m.position_flags, ..m7 };
        let fs8 = message::with_varint(fs7, 8, m.position_flags as u64);
        message::lemma_reads_varint::<Self>(fs7, m7, 8, m.position_flags as u64, m8);
        let m9 = DeviceMetadataOf { hw_model: m.hw_model, ..m8 };
        let fs9 = message::with_varint(fs8, 9, message::int32_bits(m.hw_model));
        message::lemma_int32(m.hw_model);
        message::lemma_reads_varint::<Self>(fs8, m8, 9, message::int32_bits(m.hw_model), m9);
        let m10 = DeviceMetadataOf { has_remote_hardware: m.has_remote_hardware, ..m9 };
        let fs10 = message::with_bool(fs9, 10, m.has_remote_hardware);
        message::lemma_reads_bool::<Self>(fs9, m9, 10, m.has_remote_hardware, m10);
        let m11 = DeviceMetadataOf { has_pkc: m.has_pkc, ..m10 };
        let fs11 = message::with_bool(fs10, 11, m.has_pkc);
        message::lemma_reads_bool::<Self>(fs10, m10, 11, m.has_pkc, m11);
        let fs12 = message::with_varint(fs11, 12, m.excluded_modules as u64);
        message::lemma_reads_varint::<Self>(fs11, m11, 12, m.excluded_modules as u64, m);
    }

    proof fn lemma_settled(m: DeviceMetadataView) {
    }

    proof fn lemma_blank() {
    }

    proof fn lemma_merged(m: DeviceMetadataView, f: FieldView, room: nat) {
    }
}

/// The node database as it is stored.
#[verifier::ext_equal]
#[derive(Debug, PartialEq)]
pub struct NodeDatabaseOf<L> {
    pub nodes: L,
    pub version: u32,
}

pub type NodeDatabase = NodeDatabaseOf<Vec<NodeInfoLite>>;

pub type NodeDatabaseView = NodeDatabaseOf<Seq<NodeInfoLiteView>>;

impl View for NodeDatabaseOf<Vec<NodeInfoLite>> {
    type V = NodeDatabaseView;

    open spec fn view(&self) -> NodeDatabaseView {
        NodeDatabaseOf { nodes: message::views(self.nodes@), version: self.version }
    }
}

impl Clone for NodeDatabaseOf<Vec<NodeInfoLite>> {
    fn clone(&self) -> (r: Self)
        ensures
            r@ == self@,
    {
        let nodes = self.nodes.clone();
        assert(message::views(nodes@) =~= message::views(self.nodes@));
        NodeDatabaseOf { nodes, version: self.version }
    }
}

impl Default for NodeDatabaseOf<Vec<NodeInfoLite>> {
    fn default() -> (r: Self)
        ensures
            r@ == Self::blank(),
    {
        Self::new_blank()
    }
}

impl Message for NodeDatabaseOf<Vec<NodeInfoLite>> {
    open spec fn blank() -> NodeDatabaseView {
        NodeDatabaseOf { nodes: Seq::empty(), version: 0 }
    }

    open spec fn merged(m: NodeDatabaseView, f: FieldView, room: nat) -> Option<NodeDatabaseView> {
        match (f.tag, f.value) {
            (2, WireValueOf::Bytes(b)) => match message::decoded_within::<NodeInfoLite>(
                b,
                message::inner(room),
            ) {
                Some(x) => Some(NodeDatabaseOf { nodes: m.nodes.push(x), ..m }),
                None => None,
            },
            (1, WireValueOf::Varint(v)) => Some(
                NodeDatabaseOf { version: message::as_uint32(v), ..m },
            ),
            _ if 1 <= f.tag <= 2 => None,
            _ => Some(m),
        }
    }

    open spec fn fields(m: NodeDatabaseView) -> Seq<FieldView> {
        let fs = message::with_varint(Seq::<FieldView>::empty(), 1, m.version as u64);
        fs + message::message_fields::<NodeInfoLite>(2, m.nodes)
    }

    fn new_blank() -> (m: Self) {
        let m = NodeDatabaseOf { nodes: Vec::new(), version: 0 };
        assert(m@ =~= Self::blank());
        m
    }

    fn merge_field(&mut self, f: Field, room: u32) -> (ok: bool) {
        match (f.tag, f.value) {
            (2, WireValueOf::Bytes(b)) => match message::decode_within::<NodeInfoLite>(
                &b,
                inner_room(room),
            ) {
                Ok(x) => {
                    let ghost before = message::views(self.nodes@);
                    self.nodes.push(x);
                    assert(message::views(self.nodes@) =~= before.push(x@));
                },
                Err(_) => return false,
            },
            (1, WireValueOf::Varint(v)) => self.version = to_uint32(v),
            _ => return !(1 <= f.tag && f.tag <= 2),
        }
        true
    }

    fn encode_to_vec(&self) -> (bytes: Vec<u8>) {
        let mut w = FieldWriter::new();
        w.varint(1, self.version as u64);
        w.put_messages(2, &self.nodes);
        w.finish()
    }
}

impl RoundTrip for NodeDatabaseOf<Vec<NodeInfoLite>> {
    open spec fn canonical(m: NodeDatabaseView) -> bool {
        message::all_canonical::<NodeInfoLite>(m.nodes)
    }

    open spec fn settled(m: NodeDatabaseView) -> NodeDatabaseView {
        NodeDatabaseOf { nodes: message::all_settled::<NodeInfoLite>(m.nodes), ..m }
    }

    proof fn lemma_fields(m: NodeDatabaseView) {
        message::lemma_reads_start::<Self>();
        let m0 = Self::blank();
        let fs0 = Seq::<FieldView>::empty();
        let m1 = NodeDatabaseOf { version: m.version, ..m0 };
        let fs1 = message::with_varint(fs0, 1, m.version as u64);
        message::lemma_reads_varint::<Self>(fs0, m0, 1, m.version as u64, m1);
        let states = Seq::new(
            m.nodes.len() + 1,
            |i: int| NodeDatabaseOf { nodes: m.nodes.take(i), ..m1 },
        );
        let gs = message::message_fields::<NodeInfoLite>(2, m.nodes);
        assert(states[0] =~= m1);
        assert forall|i: int| 0 <= i < gs.len() implies wire::plain(#[trigger] gs[i]) && (
        wire::small(gs[i]) ==> forall|room: nat| #[trigger]
                Self::merged(states[i], gs[i], room) == Some(states[i + 1])) by {
            message::lemma_embedded::<NodeInfoLite>(Some(m.nodes[i]));
            assert(m.nodes.take(i).push(m.nodes[i]) =~= m.nodes.take(i + 1));
        }
        message::lemma_reads_all::<Self>(fs1, gs, states);
        assert(m.nodes.take(m.nodes.len() as int) =~= m.nodes);
        assert(states.last() =~= m);
    }

    proof fn lemma_settled(m: NodeDatabaseView) {
        message::lemma_settled_messages::<NodeInfoLite>(2, m.nodes);
    }

    proof fn lemma_blank() {
    }

    proof fn lemma_merged(m: NodeDatabaseView, f: FieldView, room: nat) {
        if let (2, WireValueOf::Bytes(b)) = (f.tag, f.value) {
            message::lemma_merged_message::<NodeInfoLite>(None, b, message::inner(room));
            let x = message::decoded_within::<NodeInfoLite>(b, message::inner(room))->0;
            let before = message::all_settled::<NodeInfoLite>(m.nodes);
            assert(message::all_settled::<NodeInfoLite>(m.nodes.push(x)) =~= before.push(
                NodeInfoLite::settled(x),
            ));
        }
    }
}

} // verus!
