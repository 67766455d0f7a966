//! The channel table.

use crate::message::{
    self, inner_room, int32_to_bits, merge_bytes, to_int32, to_uint32, FieldWriter, Message,
    RoundTrip,
};
use crate::text;
use crate::wire::{self, Field, FieldView, WireValueOf};
use vstd::prelude::*;

verus! {

/// Per-channel settings of the modules.
#[verifier::ext_equal]
#[derive(Debug, PartialEq)]
pub struct ModuleSettings {
    pub position_precision: u32,
    pub is_muted: bool,
}

impl View for ModuleSettings {
    type V = ModuleSettings;

    open spec fn view(&self) -> ModuleSettings {
        *self
    }
}

impl Clone for ModuleSettings {
    fn clone(&self) -> (r: Self)
        ensures
            r@ == self@,
    {
        ModuleSettings {
            position_precision: self.position_precision,
            is_muted: self.is_muted,
        }
    }
}

impl Default for ModuleSettings {
    fn default() -> (r: Self)
        ensures
            r@ == Self::blank(),
    {
        Self::new_blank()
    }
}

impl Message for ModuleSettings {
    open spec fn blank() -> ModuleSettings {
        ModuleSettings {
            position_precision: 0,
            is_muted: false,
        }
    }

    open spec fn merged(m: ModuleSettings, f: FieldView, room: nat) -> Option<ModuleSettings> {
        match (f.tag, f.value) {
            (1, WireValueOf::Varint(v)) => Some(
                ModuleSettings { position_precision: message::as_uint32(v), ..m },
            ),
            (2, WireValueOf::Varint(v)) => Some(ModuleSettings { is_muted: v != 0, ..m }),
            _ if 1 <= f.tag <= 2 => None,
            _ => Some(m),
        }
    }

    open spec fn fields(m: ModuleSettings) -> Seq<FieldView> {
        let fs = message::with_varint(Seq::empty(), 1, m.position_precision as u64);
        message::with_bool(fs, 2, m.is_muted)
    }

    fn new_blank() -> (m: Self) {
        ModuleSettings {
            position_precision: 0,
            is_muted: false,
        }
    }

    fn merge_field(&mut self, f: Field, room: u32) -> (ok: bool) {
        match (f.tag, f.value) {
            (1, WireValueOf::Varint(v)) => self.position_precision = to_uint32(v),
            (2, WireValueOf::Varint(v)) => self.is_muted = v != 0,
            _ => return !(1 <= f.tag && f.tag <= 2),
        }
        true
    }

    fn encode_to_vec(&self) -> (bytes: Vec<u8>) {
        let mut w = FieldWriter::new();
        w.varint(1, self.position_precision as u64);
        w.boolean(2, self.is_muted);
        w.finish()
    }
}

impl RoundTrip for ModuleSettings {
    open spec fn canonical(m: ModuleSettings) -> bool {
        true
    }

    open spec fn settled(m: ModuleSettings) -> ModuleSettings {
        m
    }

    proof fn lemma_fields(m: ModuleSettings) {
        message::lemma_reads_start::<Self>();
        let m0 = Self::blank();
        let fs0 = Seq::<FieldView>::empty();
        let m1 = ModuleSettings { position_precision: m.position_precision, ..m0 };
        let fs1 = message::with_varint(fs0, 1, m.position_precision as u64);
        message::lemma_reads_varint::<Self>(fs0, m0, 1, m.position_precision as u64, m1);
        let fs2 = message::with_bool(fs1, 2, m.is_muted);
        message::lemma_reads_bool::<Self>(fs1, m1, 2, m.is_muted, m);
    }

    proof fn lemma_settled(m: ModuleSettings) {
    }

    proof fn lemma_blank() {
    }

    proof fn lemma_merged(m: ModuleSettings, f: FieldView, room: nat) {
    }
}

/// The name, key and options of a channel.
#[verifier::ext_equal]
#[derive(Debug, PartialEq)]
pub struct ChannelSettingsOf<B, S> {
    pub channel_num: u32,
    pub psk: B,
    pub name: S,
    pub id: u32,
    pub uplink_enabled: bool,
    pub downlink_enabled: bool,
    pub module_settings: Option<ModuleSettings>,
}

pub type ChannelSettings = ChannelSettingsOf<Vec<u8>, String>;

pub type ChannelSettingsView = ChannelSettingsOf<Seq<u8>, Seq<char>>;

impl View for ChannelSettingsOf<Vec<u8>, String> {
    type V = ChannelSettingsView;

    open spec fn view(&self) -> ChannelSettingsView {
        ChannelSettingsOf {
            channel_num: self.channel_num,
            psk: self.psk@,
            name: self.name@,
            id: self.id,
            uplink_enabled: self.uplink_enabled,
            downlink_enabled: self.downlink_enabled,
            module_settings: message::opt_view(self.module_settings),
        }
    }
}

impl Clone for ChannelSettingsOf<Vec<u8>, String> {
    fn clone(&self) -> (r: Self)
        ensures
            r@ == self@,
    {
        ChannelSettingsOf {
            channel_num: self.channel_num,
            psk: self.psk.clone(),
            name: self.name.clone(),
            id: self.id,
            uplink_enabled: self.uplink_enabled,
            downlink_enabled: self.downlink_enabled,
            module_settings: match &self.module_settings {
                Some(x) => Some(x.clone()),
                None => None,
            },
        }
    }
}

impl Default for ChannelSettingsOf<Vec<u8>, String> {
    fn default() -> (r: Self)
        ensures
            r@ == Self::blank(),
    {
        Self::new_blank()
    }
}

impl Message for ChannelSettingsOf<Vec<u8>, String> {
    open spec fn blank() -> ChannelSettingsView {
        ChannelSettingsOf {
            channel_num: 0,
            psk: Seq::empty(),
            name: Seq::empty(),
            id: 0,
            uplink_enabled: false,
            downlink_enabled: false,
            module_settings: None,
        }
    }

    open spec fn merged(m: ChannelSettingsView, f: FieldView, room: nat) -> Option<
        ChannelSettingsView,
    > {
        match (f.tag, f.value) {
            (1, WireValueOf::Varint(v)) => Some(
                ChannelSettingsOf { channel_num: message::as_uint32(v), ..m },
            ),
            (2, WireValueOf::Bytes(b)) => Some(ChannelSettingsOf { psk: b, ..m }),
            (3, WireValueOf::Bytes(b)) => match text::utf8_decoded(b) {
                Some(s) => Some(ChannelSettingsOf { name: s, ..m }),
                None => None,
            },
            (4, WireValueOf::Fixed32(v)) => Some(ChannelSettingsOf { id: v, ..m }),
            (5, WireValueOf::Varint(v)) => Some(ChannelSettingsOf { uplink_enabled: v != 0, ..m }),
            (6, WireValueOf::Varint(v)) => Some(
                ChannelSettingsOf { downlink_enabled: v != 0, ..m },
            ),
            (7, WireValueOf::Bytes(b)) => match message::merged_bytes::<ModuleSettings>(
                message::or_blank::<ModuleSettings>(m.module_settings),
                b,
                message::inner(room),
            ) {
                Some(x) => Some(ChannelSettingsOf { module_settings: Some(x), ..m }),
                None => None,
            },
            _ if 1 <= f.tag <= 7 => None,
            _ => Some(m),
        }
    }

    open spec fn fields(m: ChannelSettingsView) -> Seq<FieldView> {
        let fs = message::with_varint(Seq::empty(), 1, m.channel_num as u64);
        let fs = message::with_bytes(fs, 2, m.psk);
        let fs = message::with_bytes(fs, 3, text::utf8(m.name));
        let fs = message::with_fixed32(fs, 4, m.id);
        let fs = message::with_bool(fs, 5, m.uplink_enabled);
        let fs = message::with_bool(fs, 6, m.downlink_enabled);
        message::with_message::<ModuleSettings>(fs, 7, m.module_settings)
    }

    fn new_blank() -> (m: Self) {
        ChannelSettingsOf {
            channel_num: 0,
            psk: Vec::new(),
            name: String::new(),
            id: 0,
            uplink_enabled: false,
            downlink_enabled: false,
            module_settings: None,
        }
    }

    fn merge_field(&mut self, f: Field, room: u32) -> (ok: bool) {
        match (f.tag, f.value) {
            (1, WireValueOf::Varint(v)) => self.channel_num = to_uint32(v),
            (2, WireValueOf::Bytes(b)) => self.psk = b,
            (3, WireValueOf::Bytes(b)) => match text::from_utf8(b) {
                Some(s) => self.name = s,
                None => return false,
            },
            (4, WireValueOf::Fixed32(v)) => self.id = v,
            (5, WireValueOf::Varint(v)) => self.uplink_enabled = v != 0,
            (6, WireValueOf::Varint(v)) => self.downlink_enabled = v != 0,
            (7, WireValueOf::Bytes(b)) => {
                let mut x = match self.module_settings.take() {
                    Some(x) => x,
                    None => ModuleSettings::new_blank(),
                };
                if merge_bytes(&mut x, &b, inner_room(room)).is_err() {
                    return false;
                }
                self.module_settings = Some(x);
            },
            _ => return !(1 <= f.tag && f.tag <= 7),
        }
        true
    }

    fn encode_to_vec(&self) -> (bytes: Vec<u8>) {
        let mut w = FieldWriter::new();
        w.varint(1, self.channel_num as u64);
        w.bytes(2, &self.psk);
        w.bytes(3, self.name.as_str().as_bytes());
        w.fixed32(4, self.id);
        w.boolean(5, self.uplink_enabled);
        w.boolean(6, self.downlink_enabled);
        proof {
            reveal(message::with_message);
        }
        if let Some(x) = &self.module_settings {
            w.put_message(7, x);
        }
        w.finish()
    }
}

impl RoundTrip for ChannelSettingsOf<Vec<u8>, String> {
    open spec fn canonical(m: ChannelSettingsView) -> bool {
        message::opt_canonical::<ModuleSettings>(m.module_settings)
    }

    open spec fn settled(m: ChannelSettingsView) -> ChannelSettingsView {
        ChannelSettingsOf {
            module_settings: message::opt_settled::<ModuleSettings>(m.module_settings),
            ..m
        }
    }

    proof fn lemma_fields(m: ChannelSettingsView) {
        message::lemma_reads_start::<Self>();
        let m0 = Self::blank();
        let fs0 = Seq::<FieldView>::empty();
        let m1 = ChannelSettingsOf { channel_num: m.channel_num, ..m0 };
        let fs1 = message::with_varint(fs0, 1, m.channel_num as u64);
        message::lemma_reads_varint::<Self>(fs0, m0, 1, m.channel_num as u64, m1);
        let m2 = ChannelSettingsOf { psk: m.psk, ..m1 };
        let fs2 = message::with_bytes(fs1, 2, m.psk);
        assert(m.psk.len() == 0 ==> m.psk =~= Seq::empty());
        message::lemma_reads_bytes::<Self>(fs1, m1, 2, m.psk, m2);
        let m3 = ChannelSettingsOf { name: m.name, ..m2 };
        let fs3 = message::with_bytes(fs2, 3, text::utf8(m.name));
        text::lemma_utf8(m.name);
        message::lemma_reads_bytes::<Self>(fs2, m2, 3, text::utf8(m.name), m3);
        let m4 = ChannelSettingsOf { id: m.id, ..m3 };
        let fs4 = message::with_fixed32(fs3, 4, m.id);
        message::lemma_reads_fixed32::<Self>(fs3, m3, 4, m.id, m4);
        let m5 = ChannelSettingsOf { uplink_enabled: m.uplink_enabled, ..m4 };
        let fs5 = message::with_bool(fs4, 5, m.uplink_enabled);
        message::lemma_reads_bool::<Self>(fs4, m4, 5, m.uplink_enabled, m5);
        let m6 = ChannelSettingsOf { downlink_enabled: m.downlink_enabled, ..m5 };
        let fs6 = message::with_bool(fs5, 6, m.downlink_enabled);
        message::lemma_reads_bool::<Self>(fs5, m5, 6, m.downlink_enabled, m6);
        let fs7 = message::with_message::<ModuleSettings>(fs6, 7, m.module_settings);
        message::lemma_embedded::<ModuleSettings>(m.module_settings);
        message::lemma_reads_message::<Self, ModuleSettings>(fs6, m6, 7, m.module_settings, m);
    }

    proof fn lemma_settled(m: ChannelSettingsView) {
        let fs0 = Seq::<FieldView>::empty();
        let fs1 = message::with_varint(fs0, 1, m.channel_num as u64);
        let fs2 = message::with_bytes(fs1, 2, m.psk);
        let fs3 = message::with_bytes(fs2, 3, text::utf8(m.name));
        let fs4 = message::with_fixed32(fs3, 4, m.id);
        let fs5 = message::with_bool(fs4, 5, m.uplink_enabled);
        let fs6 = message::with_bool(fs5, 6, m.downlink_enabled);
        message::lemma_settled_message::<ModuleSettings>(fs6, 7, m.module_settings);
    }

    proof fn lemma_blank() {
    }

    proof fn lemma_merged(m: ChannelSettingsView, f: FieldView, room: nat) {
        match (f.tag, f.value) {
            (7, WireValueOf::Bytes(b)) => message::lemma_merged_message::<ModuleSettings>(
                m.module_settings,
                b,
                message::inner(room),
            ),
            _ => {},
        }
    }
}

/// One entry of the channel table.
#[verifier::ext_equal]
#[derive(Debug, PartialEq)]
pub struct ChannelOf<B, S> {
    pub index: i32,
    pub settings: Option<ChannelSettingsOf<B, S>>,
    pub role: i32,
}

pub type Channel = ChannelOf<Vec<u8>, String>;

pub type ChannelView = ChannelOf<Seq<u8>, Seq<char>>;

impl View for ChannelOf<Vec<u8>, String> {
    type V = ChannelView;

    open spec fn view(&self) -> ChannelView {
        ChannelOf {
            index: self.index,
            settings: message::opt_view(self.settings),
            role: self.role,
        }
    }
}

impl Clone for ChannelOf<Vec<u8>, String> {
    fn clone(&self) -> (r: Self)
        ensures
            r@ == self@,
    {
        ChannelOf {
            index: self.index,
            settings: match &self.settings {
                Some(x) => Some(x.clone()),
                None => None,
            },
            role: self.role,
        }
    }
}

impl Default for ChannelOf<Vec<u8>, String> {
    fn default() -> (r: Self)
        ensures
            r@ == Self::blank(),
    {
        Self::new_blank()
    }
}

impl Message for ChannelOf<Vec<u8>, String> {
    open spec fn blank() -> ChannelView {
        ChannelOf {
            index: 0,
            settings: None,
            role: 0,
        }
    }

    open spec fn merged(m: ChannelView, f: FieldView, room: nat) -> Option<ChannelView> {
        match (f.tag, f.value) {
            (1, WireValueOf::Varint(v)) => Some(ChannelOf { index: message::as_int32(v), ..m }),
            (2, WireValueOf::Bytes(b)) => match message::merged_bytes::<ChannelSettings>(
                message::or_blank::<ChannelSettings>(m.settings),
                b,
                message::inner(room),
            ) {
                Some(x) => Some(ChannelOf { settings: Some(x), ..m }),
                None => None,
            },
            (3, WireValueOf::Varint(v)) => Some(ChannelOf { role: message::as_int32(v), ..m }),
            _ if 1 <= f.tag <= 3 => None,
            _ => Some(m),
        }
    }

    open spec fn fields(m: ChannelView) -> Seq<FieldView> {
        let fs = message::with_varint(Seq::empty(), 1, message::int32_bits(m.index));
        let fs = message::with_message::<ChannelSettings>(fs, 2, m.settings);
        message::with_varint(fs, 3, message::int32_bits(m.role))
    }

    fn new_blank() -> (m: Self) {
        ChannelOf {
            index: 0,
            settings: None,
            role: 0,
        }
    }

    fn merge_field(&mut self, f: Field, room: u32) -> (ok: bool) {
        match (f.tag, f.value) {
            (1, WireValueOf::Varint(v)) => self.index = to_int32(v),
            (2, WireValueOf::Bytes(b)) => {
                let mut x = match self.settings.take() {
                    Some(x) => x,
                    None => ChannelSettings::new_blank(),
                };
                if merge_bytes(&mut x, &b, inner_room(room)).is_err() {
                    return false;
                }
                self.settings = Some(x);
            },
            (3, WireValueOf::Varint(v)) => self.role = to_int32(v),
            _ => return !(1 <= f.tag && f.tag <= 3),
        }
        true
    }

    fn encode_to_vec(&self) -> (bytes: Vec<u8>) {
        let mut w = FieldWriter::new();
        w.varint(1, int32_to_bits(self.index));
        proof {
            reveal(message::with_message);
        }
        if let Some(x) = &self.settings {
            w.put_message(2, x);
        }
        w.varint(3, int32_to_bits(self.role));
        w.finish()
    }
}

impl RoundTrip for ChannelOf<Vec<u8>, String> {
    open spec fn canonical(m: ChannelView) -> bool {
        message::opt_canonical::<ChannelSettings>(m.settings)
    }

    open spec fn settled(m: ChannelView) -> ChannelView {
        ChannelOf {
            settings: message::opt_settled::<ChannelSettings>(m.settings),
            ..m
        }
    }

    proof fn lemma_fields(m: ChannelView) {
        message::lemma_reads_start::<Self>();
        let m0 = Self::blank();
        let fs0 = Seq::<FieldView>::empty();
        let m1 = ChannelOf { index: m.index, ..m0 };
        let fs1 = message::with_varint(fs0, 1, message::int32_bits(m.index));
        message::lemma_int32(m.index);
        message::lemma_reads_varint::<Self>(fs0, m0, 1, message::int32_bits(m.index), m1);
        let m2 = ChannelOf { settings: m.settings, ..m1 };
        let fs2 = message::with_message::<ChannelSettings>(fs1, 2, m.settings);
        message::lemma_embedded::<ChannelSettings>(m.settings);
        message::lemma_reads_message::<Self, ChannelSettings>(fs1, m1, 2, m.settings, m2);
        let fs3 = message::with_varint(fs2, 3, message::int32_bits(m.role));
        message::lemma_int32(m.role);
        message::lemma_reads_varint::<Self>(fs2, m2, 3, message::int32_bits(m.role), m);
    }

    proof fn lemma_settled(m: ChannelView) {
        let fs0 = Seq::<FieldView>::empty();
        let fs1 = message::with_varint(fs0, 1, message::int32_bits(m.index));
        message::lemma_settled_message::<ChannelSettings>(fs1, 2, m.settings);
    }

    proof fn lemma_blank() {
    }

    proof fn lemma_merged(m: ChannelView, f: FieldView, room: nat) {
        match (f.tag, f.value) {
            (2, WireValueOf::Bytes(b)) => message::lemma_merged_message::<ChannelSettings>(
                m.settings,
                b,
                message::inner(room),
            ),
            _ => {},
        }
    }
}

/// The channel table as it is stored.
#[verifier::ext_equal]
#[derive(Debug, PartialEq)]
pub struct ChannelFileOf<L> {
    pub channels: L,
    pub version: u32,
}

pub type ChannelFile = ChannelFileOf<Vec<Channel>>;

pub type ChannelFileView = ChannelFileOf<Seq<ChannelView>>;

impl View for ChannelFileOf<Vec<Channel>> {
    type V = ChannelFileView;

    open spec fn view(&self) -> ChannelFileView {
        ChannelFileOf { channels: message::views(self.channels@), version: self.version }
    }
}

impl Clone for ChannelFileOf<Vec<Channel>> {
    fn clone(&self) -> (r: Self)
        ensures
            r@ == self@,
    {
        let channels = self.channels.clone();
        assert(message::views(channels@) =~= message::views(self.channels@));
        ChannelFileOf { channels, version: self.version }
    }
}

impl Default for ChannelFileOf<Vec<Channel>> {
    fn default() -> (r: Self)
        ensures
            r@ == Self::blank(),
    {
        Self::new_blank()
    }
}

impl Message for ChannelFileOf<Vec<Channel>> {
    open spec fn blank() -> ChannelFileView {
        ChannelFileOf { channels: Seq::empty(), version: 0 }
    }

    open spec fn merged(m: ChannelFileView, f: FieldView, room: nat) -> Option<ChannelFileView> {
        match (f.tag, f.value) {
            (1, WireValueOf::Bytes(b)) => match message::decoded_within::<Channel>(
                b,
                message::inner(room),
            ) {
                Some(x) => Some(ChannelFileOf { channels: m.channels.push(x), ..m }),
                None => None,
            },
            (2, WireValueOf::Varint(v)) => Some(
                ChannelFileOf { version: message::as_uint32(v), ..m },
            ),
            _ if 1 <= f.tag <= 2 => None,
            _ => Some(m),
        }
    }

    open spec fn fields(m: ChannelFileView) -> Seq<FieldView> {
        let fs = Seq::<FieldView>::empty() + message::message_fields::<Channel>(1, m.channels);
        message::with_varint(fs, 2, m.version as u64)
    }

    fn new_blank() -> (m: Self) {
        let m = ChannelFileOf { channels: Vec::new(), version: 0 };
        assert(m@ =~= Self::blank());
        m
    }

    fn merge_field(&mut self, f: Field, room: u32) -> (ok: bool) {
        match (f.tag, f.value) {
            (1, WireValueOf::Bytes(b)) => match message::decode_within::<Channel>(
                &b,
                inner_room(room),
            ) {
                Ok(x) => {
                    let ghost before = message::views(self.channels@);
                    self.channels.push(x);
                    assert(message::views(self.channels@) =~= before.push(x@));
                },
                Err(_) => return false,
            },
            (2, WireValueOf::Varint(v)) => self.version = to_uint32(v),
            _ => return !(1 <= f.tag && f.tag <= 2),
        }
        true
    }

    fn encode_to_vec(&self) -> (bytes: Vec<u8>) {
        let mut w = FieldWriter::new();
        w.put_messages(1, &self.channels);
        w.varint(2, self.version as u64);
        w.finish()
    }
}

impl RoundTrip for ChannelFileOf<Vec<Channel>> {
    open spec fn canonical(m: ChannelFileView) -> bool {
        message::all_canonical::<Channel>(m.channels)
    }

    open spec fn settled(m: ChannelFileView) -> ChannelFileView {
        ChannelFileOf { channels: message::all_settled::<Channel>(m.channels), ..m }
    }

    proof fn lemma_fields(m: ChannelFileView) {
        message::lemma_reads_start::<Self>();
        let m0 = Self::blank();
        let fs0 = Seq::<FieldView>::empty();
        let m1 = ChannelFileOf { channels: m.channels, ..m0 };
        let fs1 = fs0 + message::message_fields::<Channel>(1, m.channels);
        let states = Seq::new(
            m.channels.len() + 1,
            |i: int| ChannelFileOf { channels: m.channels.take(i), ..m0 },
        );
        let gs = message::message_fields::<Channel>(1, m.channels);
        assert(states[0] =~= m0);
        assert forall|i: int| 0 <= i < gs.len() implies wire::plain(#[trigger] gs[i]) && (
        wire::small(gs[i]) ==> forall|room: nat| #[trigger]
                Self::merged(states[i], gs[i], room) == Some(states[i + 1])) by {
            message::lemma_embedded::<Channel>(Some(m.channels[i]));
            assert(m.channels.take(i).push(m.channels[i]) =~= m.channels.take(i + 1));
        }
        message::lemma_reads_all::<Self>(fs0, gs, states);
        assert(m.channels.take(m.channels.len() as int) =~= m.channels);
        assert(states.last() =~= m1);
        message::lemma_reads_varint::<Self>(fs1, m1, 2, m.version as u64, m);
    }

    proof fn lemma_settled(m: ChannelFileView) {
        message::lemma_settled_messages::<Channel>(1, m.channels);
    }

    proof fn lemma_blank() {
    }

    proof fn lemma_merged(m: ChannelFileView, f: FieldView, room: nat) {
        if let (1, WireValueOf::Bytes(b)) = (f.tag, f.value) {
            message::lemma_merged_message::<Channel>(None, b, message::inner(room));
            let x = message::decoded_within::<Channel>(b, message::inner(room))->0;
            let before = message::all_settled::<Channel>(m.channels);
            assert(message::all_settled::<Channel>(m.channels.push(x)) =~= before.push(
                Channel::settled(x),
            ));
        }
    }
}

/// What a channel slot is for.
#[derive(Debug, Clone, Copy, PartialEq, Eq, Structural)]
pub enum Role {
    Disabled,
    Primary,
    Secondary,
}

impl Role {
    /// The number that stands for the role on the wire.
    pub open spec fn spec_number(self) -> i32 {
        match self {
            Role::Disabled => 0,
            Role::Primary => 1,
            Role::Secondary => 2,
        }
    }

    /// The role that a number stands for; unknown numbers mean a disabled slot.
    pub open spec fn spec_from_number(n: i32) -> Role {
        if n == 1 {
            Role::Primary
        } else if n == 2 {
            Role::Secondary
        } else {
            Role::Disabled
        }
    }

    /// The number that stands for the role on the wire.
    #[verifier::when_used_as_spec(spec_number)]
    pub fn number(self) -> (r: i32)
        ensures
            r == self.spec_number(),
            Role::spec_from_number(r) == self,
    {
        match self {
            Role::Disabled => 0,
            Role::Primary => 1,
            Role::Secondary => 2,
        }
    }

    /// The role that a number stands for; unknown numbers mean a disabled slot.
    #[verifier::when_used_as_spec(spec_from_number)]
    pub fn from_number(n: i32) -> (r: Role)
        ensures
            r == Role::spec_from_number(n),
    {
        if n == 1 {
            Role::Primary
        } else if n == 2 {
            Role::Secondary
        } else {
            Role::Disabled
        }
    }
}

} // verus!
