//! The channel table.
//!
//! A device knows up to [`MAX_NUM_CHANNELS`] channels. Each slot holds the
//! channel as it is stored, its expanded key and its 8-bit hash, the tag that
//! packets on the air carry. A secondary channel with an empty key uses the key
//! of the primary channel.

use crate::crypto::{self, channel_hash, expand_psk, DEFAULT_PSK};
use crate::message::{self, Message};
use crate::proto::channel::{
    Channel, ChannelFile, ChannelFileOf, ChannelOf, ChannelSettings, ChannelSettingsOf,
    ChannelView, Role,
};
use crate::text;
use vstd::prelude::*;
use vstd::string::StringExecFns;

verus! {

/// The most channels that the table holds.
pub const MAX_NUM_CHANNELS: usize = 8;

/// A channel and what is derived from it.
#[verifier::ext_equal]
#[derive(Debug)]
pub struct ChannelSlotOf<B, S> {
    /// The channel as it is stored.
    pub channel: ChannelOf<B, S>,
    /// The key of the channel itself, expanded; empty where the channel is
    /// disabled or unencrypted.
    pub expanded_psk: B,
    /// The hash of the channel, or `None` where it is disabled.
    pub hash: Option<u8>,
}

/// A channel and what is derived from it.
pub type ChannelSlot = ChannelSlotOf<Vec<u8>, String>;

/// The model of a [`ChannelSlot`].
pub type ChannelSlotView = ChannelSlotOf<Seq<u8>, Seq<char>>;

impl View for ChannelSlotOf<Vec<u8>, String> {
    type V = ChannelSlotView;

    open spec fn view(&self) -> ChannelSlotView {
        ChannelSlotOf {
            channel: self.channel@,
            expanded_psk: self.expanded_psk@,
            hash: self.hash,
        }
    }
}

/// The expanded key of a channel.
pub open spec fn derived_key(c: ChannelView) -> Seq<u8> {
    match c.settings {
        Some(s) if Role::from_number(c.role) != Role::Disabled => crypto::expanded(s.psk),
        _ => Seq::empty(),
    }
}

/// The hash of a channel.
pub open spec fn derived_hash(c: ChannelView) -> Option<u8> {
    match c.settings {
        Some(s) if Role::from_number(c.role) != Role::Disabled => Some(
            crypto::xor_bytes(text::utf8(s.name) + crypto::expanded(s.psk)),
        ),
        _ => None,
    }
}

/// The slot of a channel.
pub open spec fn slot_of(c: ChannelView) -> ChannelSlotView {
    ChannelSlotOf { channel: c, expanded_psk: derived_key(c), hash: derived_hash(c) }
}

impl ChannelSlotView {
    /// What the channel is for; a number without a meaning stands for disabled.
    pub open spec fn role(self) -> Role {
        Role::from_number(self.channel.role)
    }

    /// What is kept beside the channel is what is derived from it.
    pub open spec fn in_sync(self) -> bool {
        self == slot_of(self.channel)
    }
}

impl ChannelSlotOf<Vec<u8>, String> {
    /// The slot of a channel.
    pub fn from_channel(channel: Channel) -> (slot: Self)
        ensures
            slot@ == slot_of(channel@),
    {
        let (expanded_psk, hash) = derive(&channel);
        ChannelSlotOf { channel, expanded_psk, hash }
    }

    /// The name of the channel, empty where it has no settings.
    pub fn name(&self) -> (r: &str)
        ensures
            r@ == match self@.channel.settings {
                Some(s) => s.name,
                None => Seq::empty(),
            },
    {
        match &self.channel.settings {
            Some(s) => s.name.as_str(),
            None => {
                proof {
                    reveal_strlit("");
                    assert(""@ =~= Seq::empty());
                }
                ""
            },
        }
    }

    /// The role of the channel; unknown numbers mean a disabled slot.
    pub fn role(&self) -> (r: Role)
        ensures
            r == self@.role(),
    {
        Role::from_number(self.channel.role)
    }
}

impl Clone for ChannelSlotOf<Vec<u8>, String> {
    fn clone(&self) -> (r: Self)
        ensures
            r@ == self@,
    {
        ChannelSlotOf {
            channel: self.channel.clone(),
            expanded_psk: self.expanded_psk.clone(),
            hash: self.hash,
        }
    }
}

fn derive(channel: &Channel) -> (r: (Vec<u8>, Option<u8>))
    ensures
        r.0@ == derived_key(channel@),
        r.1 == derived_hash(channel@),
{
    if Role::from_number(channel.role) == Role::Disabled {
        return (Vec::new(), None);
    }
    match &channel.settings {
        Some(settings) => {
            let expanded = expand_psk(&settings.psk);
            let hash: u8 = channel_hash(settings.name.as_str(), &expanded);
            (expanded, Some(hash))
        },
        None => (Vec::new(), None),
    }
}

fn is_default_psk(psk: &Vec<u8>) -> (r: bool)
    ensures
        r <==> psk@ == DEFAULT_PSK@,
{
    if psk.len() != 16 {
        return false;
    }
    let mut k: usize = 0;
    while k < 16
        invariant
            k <= 16,
            psk@.len() == 16,
            forall|j: int| 0 <= j < k ==> psk@[j] == DEFAULT_PSK@[j],
        decreases 16 - k,
    {
        if psk[k] != DEFAULT_PSK[k] {
            return false;
        }
        k += 1;
    }
    assert(psk@ =~= DEFAULT_PSK@);
    true
}

/// Why a stored table was refused.
#[derive(Debug, Clone, Copy, PartialEq, Eq)]
pub enum ChannelsError {
    /// There are more than [`MAX_NUM_CHANNELS`] channels; there are this many.
    TooManyChannels(usize),
    /// No channel is the primary one.
    NoPrimaryChannel,
    /// More than one channel is the primary one.
    MultiplePrimaryChannels,
}

impl ChannelsError {
    /// The error in words.
    pub open spec fn text(self) -> Seq<char> {
        match self {
            ChannelsError::TooManyChannels(n) => "too many channels: "@ + text::decimal(n as nat)
                + " > 8"@,
            ChannelsError::NoPrimaryChannel => "no PRIMARY channel in the table"@,
            ChannelsError::MultiplePrimaryChannels => "multiple PRIMARY channels in the table"@,
        }
    }

    /// The error in words.
    pub fn describe(&self) -> (r: String)
        ensures
            r@ == self.text(),
    {
        match self {
            ChannelsError::TooManyChannels(n) => text::number_between(
                "too many channels: ",
                *n as u64,
                " > 8",
            ),
            ChannelsError::NoPrimaryChannel => String::from_str("no PRIMARY channel in the table"),
            ChannelsError::MultiplePrimaryChannels => String::from_str(
                "multiple PRIMARY channels in the table",
            ),
        }
    }
}

/// The channel table.
#[derive(Debug)]
pub struct Channels {
    slots: Vec<ChannelSlot>,
    primary_index: u8,
}

/// The channel table as its contracts see it.
#[verifier::ext_equal]
pub struct ChannelsView {
    pub slots: Seq<ChannelSlotView>,
    pub primary_index: u8,
}

impl View for Channels {
    type V = ChannelsView;

    closed spec fn view(&self) -> ChannelsView {
        ChannelsView { slots: message::views(self.slots@), primary_index: self.primary_index }
    }
}

/// Whether `i` is the only primary channel of `cs`.
pub open spec fn sole_primary(cs: Seq<ChannelView>, i: int) -> bool {
    &&& 0 <= i < cs.len()
    &&& cs[i].role == Role::Primary.number()
    &&& forall|j: int|
        0 <= j < cs.len() && #[trigger] cs[j].role == Role::Primary.number() ==> j == i
}

/// The slots of channels.
pub open spec fn slots_of(cs: Seq<ChannelView>) -> Seq<ChannelSlotView> {
    Seq::new(cs.len(), |i: int| slot_of(cs[i]))
}

/// The channels of slots.
pub open spec fn channels_of(slots: Seq<ChannelSlotView>) -> Seq<ChannelView> {
    Seq::new(slots.len(), |i: int| slots[i].channel)
}

/// The indices below `n` of the slots whose hash is `hash`, in ascending order.
pub open spec fn hash_matches(slots: Seq<ChannelSlotView>, hash: u8, n: nat) -> Seq<int>
    decreases n,
{
    if n == 0 {
        Seq::empty()
    } else {
        let before = hash_matches(slots, hash, (n - 1) as nat);
        if slots[n - 1].hash == Some(hash) {
            before.push(n - 1)
        } else {
            before
        }
    }
}

/// The number of slots below `n` that are not disabled.
pub open spec fn enabled_count(slots: Seq<ChannelSlotView>, n: nat) -> nat
    decreases n,
{
    if n == 0 {
        0
    } else {
        enabled_count(slots, (n - 1) as nat) + if slots[n - 1].role() == Role::Disabled {
            0nat
        } else {
            1
        }
    }
}

/// The key of a channel as it is stored.
pub open spec fn stored_psk(c: ChannelView) -> Seq<u8> {
    match c.settings {
        Some(s) => s.psk,
        None => Seq::empty(),
    }
}

impl ChannelsView {
    /// The table fits, and its primary index names a slot.
    pub open spec fn wf(self) -> bool {
        self.slots.len() <= MAX_NUM_CHANNELS && self.primary_index < self.slots.len()
    }

    /// The table has exactly one primary channel, at its primary index, and
    /// every slot is in sync with its channel.
    pub open spec fn consistent(self) -> bool {
        &&& self.wf()
        &&& sole_primary(channels_of(self.slots), self.primary_index as int)
        &&& forall|i: int| 0 <= i < self.slots.len() ==> #[trigger] self.slots[i].in_sync()
    }

    /// The key that packets on channel `i` are encrypted with: the channel's
    /// own key, or the primary channel's where a secondary channel stores none.
    /// A channel that stores the one byte 0 is unencrypted and inherits nothing.
    pub open spec fn key(self, i: int) -> Option<Seq<u8>> {
        if !(0 <= i < self.slots.len()) || self.slots[i].role() == Role::Disabled {
            None
        } else if self.slots[i].expanded_psk.len() > 0 {
            Some(self.slots[i].expanded_psk)
        } else if self.slots[i].role() == Role::Secondary && stored_psk(self.slots[i].channel).len()
            == 0 && self.slots[self.primary_index as int].expanded_psk.len() > 0 {
            Some(self.slots[self.primary_index as int].expanded_psk)
        } else {
            None
        }
    }
}

/// The channel of a fresh device: primary, without a name, under the default key.
pub open spec fn default_primary() -> ChannelView {
    ChannelOf {
        index: 0,
        settings: Some(ChannelSettingsOf { psk: seq![1u8], ..ChannelSettings::blank() }),
        role: Role::Primary.number(),
    }
}

impl Channels {
    #[verifier::type_invariant]
    closed spec fn wf(self) -> bool {
        self.slots@.len() <= MAX_NUM_CHANNELS && self.primary_index < self.slots@.len()
    }

    /// The table of a fresh device: one primary channel under the default key.
    pub fn with_default_primary() -> (c: Self)
        ensures
            c@.slots == seq![slot_of(default_primary())],
            c@.primary_index == 0,
            c@.consistent(),
    {
        let mut psk: Vec<u8> = Vec::new();
        psk.push(1);
        let settings = ChannelSettingsOf { psk, ..ChannelSettings::new_blank() };
        let primary = ChannelOf {
            index: 0,
            settings: Some(settings),
            role: Role::Primary.number(),
        };
        assert(primary@ =~= default_primary());
        let mut slots: Vec<ChannelSlot> = Vec::new();
        slots.push(ChannelSlot::from_channel(primary));
        assert(message::views(slots@) =~= seq![slot_of(default_primary())]);
        Channels { slots, primary_index: 0 }
    }

    /// Loads a stored table.
    pub fn from_channel_file(file: &ChannelFile) -> (r: Result<Self, ChannelsError>)
        ensures
            r is Ok <==> file@.channels.len() <= MAX_NUM_CHANNELS && exists|i: int|
                sole_primary(file@.channels, i),
            r matches Ok(c) ==> {
                &&& c@.slots == slots_of(file@.channels)
                &&& sole_primary(file@.channels, c@.primary_index as int)
                &&& c@.consistent()
            },
            r matches Err(ChannelsError::TooManyChannels(n)) ==> n == file@.channels.len(),
            r matches Err(ChannelsError::TooManyChannels(_)) <==> file@.channels.len()
                > MAX_NUM_CHANNELS,
            r matches Err(ChannelsError::NoPrimaryChannel) <==> file@.channels.len()
                <= MAX_NUM_CHANNELS && forall|i: int|
                0 <= i < file@.channels.len() ==> #[trigger] file@.channels[i].role
                    != Role::Primary.number(),
            r matches Err(ChannelsError::MultiplePrimaryChannels) <==> file@.channels.len()
                <= MAX_NUM_CHANNELS && exists|i: int, j: int|
                0 <= i < j < file@.channels.len() && #[trigger] file@.channels[i].role
                    == Role::Primary.number() && #[trigger] file@.channels[j].role
                    == Role::Primary.number(),
    {
        let ghost cs = file@.channels;
        if file.channels.len() > MAX_NUM_CHANNELS {
            return Err(ChannelsError::TooManyChannels(file.channels.len()));
        }
        let mut primary: Option<u8> = None;
        let mut slots: Vec<ChannelSlot> = Vec::new();
        let mut i: usize = 0;
        while i < file.channels.len()
            invariant
                i <= file.channels.len() <= MAX_NUM_CHANNELS,
                cs == message::views(file.channels@),
                slots@.len() == i,
                forall|j: int| 0 <= j < i ==> (#[trigger] slots@[j])@ == slot_of(cs[j]),
                primary matches Some(p) ==> {
                    &&& p < i
                    &&& cs[p as int].role == Role::Primary.number()
                    &&& forall|j: int|
                        0 <= j < i && #[trigger] cs[j].role == Role::Primary.number() ==> j == p
                },
                primary is None ==> forall|j: int|
                    0 <= j < i ==> #[trigger] cs[j].role != Role::Primary.number(),
            decreases file.channels.len() - i,
        {
            let ch = &file.channels[i];
            assert(ch@ == cs[i as int]);
            if ch.role == Role::Primary.number() {
                if let Some(p) = primary {
                    proof {
                        assert(cs[p as int].role == Role::Primary.number());
                        assert(cs[i as int].role == Role::Primary.number());
                        assert(!exists|k: int| sole_primary(cs, k));
                    }
                    return Err(ChannelsError::MultiplePrimaryChannels);
                }
                primary = Some(i as u8);
            }
            slots.push(ChannelSlot::from_channel(ch.clone()));
            i += 1;
        }
        assert(message::views(slots@) =~= slots_of(cs));
        match primary {
            Some(primary_index) => {
                assert(sole_primary(cs, primary_index as int));
                assert(channels_of(slots_of(cs)) =~= cs);
                Ok(Channels { slots, primary_index })
            },
            None => {
                assert(!exists|k: int| sole_primary(cs, k));
                Err(ChannelsError::NoPrimaryChannel)
            },
        }
    }

    /// The table as it is stored. The version is left at zero; it is the
    /// caller's to set.
    pub fn to_channel_file(&self) -> (file: ChannelFile)
        ensures
            file@ == (ChannelFileOf { channels: channels_of(self@.slots), version: 0 }),
    {
        let mut channels: Vec<Channel> = Vec::new();
        let mut i: usize = 0;
        while i < self.slots.len()
            invariant
                i <= self.slots.len(),
                channels@.len() == i,
                forall|j: int| 0 <= j < i ==> (#[trigger] channels@[j])@ == self.slots@[j]@.channel,
            decreases self.slots.len() - i,
        {
            channels.push(self.slots[i].channel.clone());
            i += 1;
        }
        let file = ChannelFileOf { channels, version: 0 };
        assert(file@.channels =~= channels_of(self@.slots));
        file
    }

    /// The number of slots.
    pub fn num_channels(&self) -> (n: u8)
        ensures
            n == self@.slots.len(),
    {
        proof {
            use_type_invariant(self);
        }
        self.slots.len() as u8
    }

    /// The index of the primary slot.
    pub fn primary_index(&self) -> (i: u8)
        ensures
            i == self@.primary_index,
            i < self@.slots.len() <= MAX_NUM_CHANNELS,
    {
        proof {
            use_type_invariant(self);
        }
        self.primary_index
    }

    /// The slot at an index.
    pub fn by_index(&self, i: u8) -> (r: Option<&ChannelSlot>)
        ensures
            r is Some <==> i < self@.slots.len(),
            r matches Some(s) ==> s@ == self@.slots[i as int],
    {
        if (i as usize) < self.slots.len() {
            Some(&self.slots[i as usize])
        } else {
            None
        }
    }

    /// The slot at an index, to be changed. After a change of its channel,
    /// [`Self::refresh_slot`] brings the rest of the slot up to date.
    pub fn by_index_mut(&mut self, i: u8) -> (r: Option<&mut ChannelSlot>)
        ensures
            r is Some <==> i < old(self)@.slots.len(),
            final(self)@.primary_index == old(self)@.primary_index,
            match r {
                Some(s) => s@ == old(self)@.slots[i as int] && final(self)@.slots
                    == old(self)@.slots.update(i as int, final(s)@),
                None => final(self)@ == old(self)@,
            },
    {
        proof {
            use_type_invariant(&*self);
        }
        if (i as usize) < self.slots.len() {
            Some(&mut self.slots[i as usize])
        } else {
            None
        }
    }

    /// Brings the key and the hash of a slot up to date with its channel.
    pub fn refresh_slot(&mut self, i: u8)
        ensures
            final(self)@.primary_index == old(self)@.primary_index,
            final(self)@.slots == if i < old(self)@.slots.len() {
                old(self)@.slots.update(i as int, slot_of(old(self)@.slots[i as int].channel))
            } else {
                old(self)@.slots
            },
    {
        proof {
            use_type_invariant(&*self);
        }
        if (i as usize) < self.slots.len() {
            let (psk, hash) = derive(&self.slots[i as usize].channel);
            let slot = &mut self.slots[i as usize];
            slot.expanded_psk = psk;
            slot.hash = hash;
        }
        assert(self@.slots =~= if i < old(self)@.slots.len() {
            old(self)@.slots.update(i as int, slot_of(old(self)@.slots[i as int].channel))
        } else {
            old(self)@.slots
        });
    }

    /// The slots whose hash is `hash`, with their indices, in ascending order.
    pub fn find_by_hash(&self, hash: u8) -> (r: Vec<(u8, &ChannelSlot)>)
        ensures
            r@.len() == hash_matches(self@.slots, hash, self@.slots.len()).len(),
            forall|k: int|
                0 <= k < r@.len() ==> (#[trigger] r@[k]).0 == hash_matches(
                    self@.slots,
                    hash,
                    self@.slots.len(),
                )[k] && r@[k].1@ == self@.slots[r@[k].0 as int],
    {
        proof {
            use_type_invariant(self);
        }
        let mut r: Vec<(u8, &ChannelSlot)> = Vec::new();
        let mut i: usize = 0;
        while i < self.slots.len()
            invariant
                i <= self.slots.len() <= MAX_NUM_CHANNELS,
                r@.len() == hash_matches(self@.slots, hash, i as nat).len(),
                forall|k: int|
                    0 <= k < r@.len() ==> (#[trigger] r@[k]).0 == hash_matches(
                        self@.slots,
                        hash,
                        i as nat,
                    )[k] && r@[k].1@ == self@.slots[r@[k].0 as int],
            decreases self.slots.len() - i,
        {
            if self.slots[i].hash == Some(hash) {
                r.push((i as u8, &self.slots[i]));
            }
            i += 1;
        }
        r
    }

    /// The key for packets on a channel, or `None` where it has none.
    pub fn effective_key(&self, i: u8) -> (r: Option<&[u8]>)
        ensures
            r is Some <==> self@.key(i as int) is Some,
            r matches Some(k) ==> self@.key(i as int) == Some(k@),
    {
        proof {
            use_type_invariant(self);
        }
        if !((i as usize) < self.slots.len()) {
            return None;
        }
        let slot = &self.slots[i as usize];
        if slot.role() == Role::Disabled {
            return None;
        }
        if slot.expanded_psk.len() > 0 {
            return Some(slot.expanded_psk.as_slice());
        }
        let stores_none = match &slot.channel.settings {
            Some(s) => s.psk.len() == 0,
            None => true,
        };
        if slot.role() == Role::Secondary && stores_none {
            let primary = &self.slots[self.primary_index as usize];
            if primary.expanded_psk.len() > 0 {
                return Some(primary.expanded_psk.as_slice());
            }
        }
        None
    }

    /// Whether a channel is stored with the default key, in full or as its
    /// one-byte shorthand.
    pub fn uses_default_psk(&self, i: u8) -> (r: bool)
        ensures
            r <==> i < self@.slots.len() && (self@.slots[i as int].channel.settings matches Some(s)
                && (s.psk == seq![1u8] || s.psk == DEFAULT_PSK@)),
    {
        if !((i as usize) < self.slots.len()) {
            return false;
        }
        match &self.slots[i as usize].channel.settings {
            Some(s) => {
                if s.psk.len() == 1 {
                    assert(s.psk@[0] == 1 ==> s.psk@ =~= seq![1u8]);
                    return s.psk[0] == 1;
                }
                is_default_psk(&s.psk)
            },
            None => false,
        }
    }

    /// The number of slots that are not disabled.
    pub fn num_enabled(&self) -> (n: u8)
        ensures
            n == enabled_count(self@.slots, self@.slots.len()),
    {
        proof {
            use_type_invariant(self);
        }
        let mut n: u8 = 0;
        let mut i: usize = 0;
        while i < self.slots.len()
            invariant
                i <= self.slots.len() <= MAX_NUM_CHANNELS,
                n == enabled_count(self@.slots, i as nat),
                n <= i,
            decreases self.slots.len() - i,
        {
            if self.slots[i].role() != Role::Disabled {
                n += 1;
            }
            i += 1;
        }
        n
    }
}

impl Clone for Channels {
    fn clone(&self) -> (r: Self)
        ensures
            r@ == self@,
    {
        proof {
            use_type_invariant(self);
        }
        let slots = self.slots.clone();
        assert(message::views(slots@) =~= message::views(self.slots@));
        Channels { slots, primary_index: self.primary_index }
    }
}

impl Default for Channels {
    fn default() -> (c: Self)
        ensures
            c@.slots == seq![slot_of(default_primary())],
            c@.primary_index == 0,
            c@.consistent(),
    {
        Self::with_default_primary()
    }
}

/// Storing a table undoes loading it: the channels of a loaded table are those
/// of the file.
pub proof fn lemma_stored_channels(cs: Seq<ChannelView>)
    ensures
        channels_of(slots_of(cs)) == cs,
{
    assert(channels_of(slots_of(cs)) =~= cs);
}

/// Loading a table undoes storing it: a consistent table is what its own stored
/// form loads as, and that form is accepted.
pub proof fn lemma_load_of_store(t: ChannelsView)
    requires
        t.consistent(),
    ensures
        channels_of(t.slots).len() <= MAX_NUM_CHANNELS,
        slots_of(channels_of(t.slots)) == t.slots,
        forall|i: int| sole_primary(channels_of(t.slots), i) <==> i == t.primary_index,
{
    assert forall|i: int| 0 <= i < t.slots.len() implies slots_of(channels_of(t.slots))[i]
        == #[trigger] t.slots[i] by {
        assert(t.slots[i].in_sync());
    }
    assert(slots_of(channels_of(t.slots)) =~= t.slots);
}

/// Changing the channel of a slot, as long as its role stays, and refreshing
/// the slot leaves a consistent table consistent.
pub proof fn lemma_refresh_keeps_consistent(t: ChannelsView, i: int, c: ChannelView)
    requires
        t.consistent(),
        0 <= i < t.slots.len(),
        c.role == t.slots[i].channel.role,
    ensures
        (ChannelsView { slots: t.slots.update(i, slot_of(c)), ..t }).consistent(),
{
    let u = ChannelsView { slots: t.slots.update(i, slot_of(c)), ..t };
    assert forall|j: int|
        0 <= j < u.slots.len() && #[trigger] channels_of(u.slots)[j].role
            == Role::Primary.number() implies j == u.primary_index by {
        assert(channels_of(t.slots)[j].role == Role::Primary.number());
    }
    assert(channels_of(t.slots)[t.primary_index as int].role == Role::Primary.number());
}

/// The matches of a hash are exactly the slots with that hash, each once, in
/// ascending order.
pub proof fn lemma_hash_matches(slots: Seq<ChannelSlotView>, hash: u8, n: nat)
    requires
        n <= slots.len(),
    ensures
        forall|k: int|
            0 <= k < hash_matches(slots, hash, n).len() ==> 0 <= #[trigger] hash_matches(
                slots,
                hash,
                n,
            )[k] < n && slots[hash_matches(slots, hash, n)[k]].hash == Some(hash),
        forall|k: int, l: int|
            0 <= k < l < hash_matches(slots, hash, n).len() ==> hash_matches(slots, hash, n)[k]
                < hash_matches(slots, hash, n)[l],
        forall|i: int|
            0 <= i < n && #[trigger] slots[i].hash == Some(hash) ==> hash_matches(
                slots,
                hash,
                n,
            ).contains(i),
    decreases n,
{
    if n > 0 {
        let m = (n - 1) as nat;
        lemma_hash_matches(slots, hash, m);
        let before = hash_matches(slots, hash, m);
        let all = hash_matches(slots, hash, n);
        assert forall|i: int| 0 <= i < n && #[trigger] slots[i].hash == Some(
            hash,
        ) implies all.contains(i) by {
            if i < m {
                let k = choose|k: int| 0 <= k < before.len() && before[k] == i;
                assert(all[k] == i);
            } else {
                assert(all[all.len() - 1] == i);
            }
        }
    }
}

/// A secondary channel that stores no key uses the key of the primary channel,
/// if that has one.
pub proof fn lemma_secondary_uses_primary_key(t: ChannelsView, i: int)
    requires
        t.consistent(),
        0 <= i < t.slots.len(),
        t.slots[i].role() == Role::Secondary,
        stored_psk(t.slots[i].channel).len() == 0,
    ensures
        t.key(i) == t.key(t.primary_index as int),
{
    assert(t.slots[i].in_sync());
    assert(channels_of(t.slots)[t.primary_index as int].role == Role::Primary.number());
}

/// A channel that stores the one byte 0 is unencrypted, whatever its role.
pub proof fn lemma_zero_byte_unencrypted(t: ChannelsView, i: int)
    requires
        t.consistent(),
        0 <= i < t.slots.len(),
        stored_psk(t.slots[i].channel) == seq![0u8],
    ensures
        t.key(i) is None,
{
    assert(t.slots[i].in_sync());
}

/// What a role number means: 1 is the primary channel, 2 a secondary one, and any
/// other number a disabled slot.
pub proof fn lemma_role_numbers(c: ChannelView)
    ensures
        slot_of(c).role() == Role::Primary <==> c.role == 1,
        slot_of(c).role() == Role::Secondary <==> c.role == 2,
        slot_of(c).role() == Role::Disabled <==> c.role != 1 && c.role != 2,
{
}

/// What is kept beside a channel: of one that is enabled and has settings, the
/// expansion of the stored key, and a hash that combines those of the name and of the
/// expansion; of any other, nothing. The channel itself stays as it is.
pub proof fn lemma_slot_of(c: ChannelView)
    ensures
        slot_of(c).channel == c,
        (c.role == 1 || c.role == 2) ==> (c.settings matches Some(s) ==> {
            &&& slot_of(c).expanded_psk == crypto::expanded(s.psk)
            &&& slot_of(c).hash == Some(
                crypto::xor_bytes(text::utf8(s.name)) ^ crypto::xor_bytes(crypto::expanded(s.psk)),
            )
        }),
        c.settings is None || (c.role != 1 && c.role != 2) ==> slot_of(c).hash is None && slot_of(
            c,
        ).expanded_psk.len() == 0,
{
    if let Some(s) = c.settings {
        crypto::lemma_xor_bytes_concat(text::utf8(s.name), crypto::expanded(s.psk));
    }
}

/// The key of a channel, by what is stored. A channel that stores a key uses its
/// expansion and no other key; a secondary channel that stores none uses what the
/// primary channel uses; a primary channel that stores none, a channel that stores
/// the one byte 0, a disabled one and one that is not there have no key.
pub proof fn lemma_effective_key(t: ChannelsView, i: int)
    requires
        t.consistent(),
    ensures
        !(0 <= i < t.slots.len()) ==> t.key(i) is None,
        0 <= i < t.slots.len() ==> {
            let c = t.slots[i].channel;
            let primary = t.slots[t.primary_index as int].channel;
            &&& c.role != 1 && c.role != 2 ==> t.key(i) is None
            &&& (c.role == 1 || c.role == 2) ==> (c.settings matches Some(s) ==> {
                &&& s.psk.len() > 0 && s.psk != seq![0u8] ==> t.key(i) == Some(
                    crypto::expanded(s.psk),
                )
                &&& s.psk == seq![0u8] ==> t.key(i) is None
            })
            &&& c.role == 1 && (c.settings matches Some(s) ==> s.psk.len() == 0) ==> t.key(i)
                is None
            &&& c.role == 2 && (c.settings matches Some(s) ==> s.psk.len() == 0) ==> {
                &&& primary.settings matches Some(q) ==> {
                    &&& q.psk.len() > 0 && q.psk != seq![0u8] ==> t.key(i) == Some(
                        crypto::expanded(q.psk),
                    )
                    &&& q.psk.len() == 0 || q.psk == seq![0u8] ==> t.key(i) is None
                }
                &&& primary.settings is None ==> t.key(i) is None
            }
        },
{
    if 0 <= i < t.slots.len() {
        assert(t.slots[i].in_sync());
        assert(t.slots[t.primary_index as int].in_sync());
        assert(channels_of(t.slots)[t.primary_index as int].role == Role::Primary.number());
        if let Some(s) = t.slots[i].channel.settings {
            crypto::lemma_expanded_len(s.psk);
        }
        if let Some(q) = t.slots[t.primary_index as int].channel.settings {
            crypto::lemma_expanded_len(q.psk);
        }
    }
}

/// No channel uses a key that neither it nor the primary channel stores.
pub proof fn lemma_key_is_stored(t: ChannelsView, i: int)
    requires
        t.consistent(),
        t.key(i) is Some,
    ensures
        0 <= i < t.slots.len(),
        t.key(i)->0.len() > 0,
        (t.slots[i].channel.settings matches Some(s) && t.key(i) == Some(crypto::expanded(s.psk)))
            || (t.slots[i].channel.role == 2 && (
        t.slots[t.primary_index as int].channel.settings matches Some(q) && t.key(i) == Some(
            crypto::expanded(q.psk),
        ))),
{
    lemma_effective_key(t, i);
    assert(t.slots[i].in_sync());
    assert(t.slots[t.primary_index as int].in_sync());
}

/// The slots that are counted as enabled are those whose role is primary or
/// secondary, each once.
pub proof fn lemma_enabled_count(slots: Seq<ChannelSlotView>, n: nat)
    requires
        n <= slots.len(),
    ensures
        enabled_count(slots, n) == slots.take(n as int).filter(
            |s: ChannelSlotView| s.channel.role == 1 || s.channel.role == 2,
        ).len(),
    decreases n,
{
    let enabled = |s: ChannelSlotView| s.channel.role == 1 || s.channel.role == 2;
    reveal(Seq::filter);
    if n > 0 {
        lemma_enabled_count(slots, (n - 1) as nat);
        assert(slots.take(n as int).drop_last() =~= slots.take(n - 1));
        assert(slots.take(n as int).last() == slots[n - 1]);
    } else {
        assert(slots.take(0) =~= Seq::empty());
    }
}

/// A fresh device has one channel: primary, at index 0, without a name, and under the
/// default key, which its packets are encrypted with.
pub proof fn lemma_default_primary()
    ensures
        default_primary().role == 1,
        default_primary().index == 0,
        default_primary().settings matches Some(s) && s.psk == seq![1u8] && s.name.len() == 0
            && !s.uplink_enabled && !s.downlink_enabled,
        ({
            let t = ChannelsView { slots: seq![slot_of(default_primary())], primary_index: 0 };
            t.key(0) == Some(DEFAULT_PSK@)
        }),
{
    crypto::lemma_expanded_short(1, 2);
}

} // verus!
