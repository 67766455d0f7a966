//! The text message module.
//!
//! Keeps the last text, remembers the ids of recent texts, and tells observers
//! of each text.

use crate::message;
use crate::module::{Call, MeshModule, ModuleContext, ProcessMessage};
use crate::proto::packet::{MeshPacket, MeshPacketView, PayloadVariantOf};
use crate::proto::ports::PORT_TEXT_MESSAGE;
use vstd::prelude::*;

verus! {

/// The usual number of ids that are remembered.
pub const DEFAULT_RECENT_CAPACITY: usize = 50;

/// One who is told of texts.
pub trait TextObserver {
    /// The texts that the observer was told of.
    spec fn heard(&self) -> Seq<MeshPacketView>;

    /// Tells the observer of a text.
    fn on_text(&mut self, packet: &MeshPacket)
        ensures
            final(self).heard() == old(self).heard().push(packet@),
    ;
}

/// Whether a function takes every packet.
pub open spec fn takes_all<F: FnMut(&MeshPacket)>(call: F) -> bool {
    forall|p: &MeshPacket| call_requires(call, (p,))
}

/// An observer that calls a function.
pub struct Callback<F: FnMut(&MeshPacket)> {
    call: F,
    heard: Ghost<Seq<MeshPacketView>>,
}

impl<F: FnMut(&MeshPacket)> Callback<F> {
    #[verifier::type_invariant]
    closed spec fn wf(self) -> bool {
        takes_all(self.call)
    }

    /// An observer that calls `call` and was not told of a text yet.
    pub closed spec fn unused(call: F) -> Self {
        Callback { call, heard: Ghost(Seq::empty()) }
    }

    /// An observer that calls `call` with each text.
    pub fn new(call: F) -> (r: Self)
        requires
            takes_all(call),
        ensures
            r == Self::unused(call),
            r.heard() == Seq::<MeshPacketView>::empty(),
    {
        Callback { call, heard: Ghost(Seq::empty()) }
    }
}

/// Calls the function that a caller handed over, with the packet. The function
/// must take every packet. What it does is its own; the log of the observer
/// grows by the packet.
#[verifier::external_body]
fn invoke<F: FnMut(&MeshPacket)>(cb: &mut Callback<F>, packet: &MeshPacket)
    requires
        takes_all(old(cb).call),
    ensures
        final(cb).heard() == old(cb).heard().push(packet@),
{
    (cb.call)(packet)
}

impl<F: FnMut(&MeshPacket)> TextObserver for Callback<F> {
    closed spec fn heard(&self) -> Seq<MeshPacketView> {
        self.heard@
    }

    fn on_text(&mut self, packet: &MeshPacket) {
        proof {
            use_type_invariant(&*self);
        }
        invoke(self, packet);
    }
}

/// An observer in the list.
struct Observer {
    observer: Box<dyn TextObserver>,
}

impl Observer {
    spec fn heard(&self) -> Seq<MeshPacketView> {
        self.observer.heard()
    }
}

fn observe<O: TextObserver + 'static>(observer: O) -> (r: Observer)
    ensures
        r == (Observer { observer: Box::new(observer) }),
{
    Observer { observer: Box::new(observer) }
}

/// The log of an observer in the list that calls `cb` and was not told of a
/// text yet.
pub closed spec fn unused_log<F: FnMut(&MeshPacket) + Send + 'static>(cb: F) -> Seq<
    MeshPacketView,
> {
    Observer { observer: Box::new(Callback::unused(cb)) }.heard()
}

/// The memory of recent ids: a ring of slots, and the slot to be written next.
/// Zero is a free slot.
#[verifier::ext_equal]
pub struct RecentIds {
    pub ids: Seq<u32>,
    pub next: int,
}

impl RecentIds {
    /// Whether there is a slot to be written next.
    pub open spec fn wf(self) -> bool {
        0 <= self.next < self.ids.len()
    }

    /// The memory after one more text.
    pub open spec fn noted(self, id: u32) -> RecentIds {
        if id == 0 {
            self
        } else {
            RecentIds {
                ids: self.ids.update(self.next, id),
                next: if self.next + 1 == self.ids.len() {
                    0
                } else {
                    self.next + 1
                },
            }
        }
    }

    /// The memory after several more texts.
    pub open spec fn noted_all(self, ids: Seq<u32>) -> RecentIds
        decreases ids.len(),
    {
        if ids.len() == 0 {
            self
        } else {
            self.noted_all(ids.drop_last()).noted(ids.last())
        }
    }

    /// Whether an id is remembered.
    pub open spec fn knows(self, id: u32) -> bool {
        id != 0 && self.ids.contains(id)
    }
}

/// The text message module.
pub struct TextMessageModule {
    recent_ids: Vec<u32>,
    recent_idx: usize,
    last_text: Option<MeshPacket>,
    observers: Vec<Observer>,
    calls: Ghost<Seq<Call>>,
}

/// The text message module as its contracts see it.
#[verifier::ext_equal]
pub struct TextMessageView {
    pub recent: RecentIds,
    pub last_text: Option<MeshPacketView>,
    /// What each observer was told of.
    pub heard: Seq<Seq<MeshPacketView>>,
}

impl View for TextMessageModule {
    type V = TextMessageView;

    closed spec fn view(&self) -> TextMessageView {
        TextMessageView {
            recent: RecentIds { ids: self.recent_ids@, next: self.recent_idx as int },
            last_text: message::opt_view(self.last_text),
            heard: Seq::new(self.observers@.len(), |i: int| self.observers@[i].heard()),
        }
    }
}

/// Whether a packet is a text.
pub open spec fn is_text(p: MeshPacketView) -> bool {
    p.payload_variant matches Some(PayloadVariantOf::Decoded(d)) && d.portnum == PORT_TEXT_MESSAGE
}

/// The module after a text.
pub open spec fn after_text(m: TextMessageView, p: MeshPacketView) -> TextMessageView {
    TextMessageView {
        recent: m.recent.noted(p.id),
        last_text: Some(p),
        heard: Seq::new(m.heard.len(), |i: int| m.heard[i].push(p)),
    }
}

/// A module without texts and observers.
pub open spec fn fresh(capacity: usize) -> TextMessageView {
    TextMessageView {
        recent: RecentIds {
            ids: Seq::new(
                if capacity < 1 {
                    1
                } else {
                    capacity as nat
                },
                |i: int| 0u32,
            ),
            next: 0,
        },
        last_text: None,
        heard: Seq::empty(),
    }
}

impl TextMessageModule {
    #[verifier::type_invariant]
    closed spec fn wf(self) -> bool {
        self.recent_idx < self.recent_ids@.len()
    }

    /// A module that remembers [`DEFAULT_RECENT_CAPACITY`] ids.
    pub fn new() -> (m: Self)
        ensures
            m@ == fresh(DEFAULT_RECENT_CAPACITY),
            m.calls() == Seq::<Call>::empty(),
    {
        Self::with_recent_capacity(DEFAULT_RECENT_CAPACITY)
    }

    /// A module that remembers `capacity` ids, at least one.
    pub fn with_recent_capacity(capacity: usize) -> (m: Self)
        ensures
            m@ == fresh(capacity),
            m.calls() == Seq::<Call>::empty(),
    {
        let cap: usize = if capacity < 1 {
            1
        } else {
            capacity
        };
        let mut recent_ids: Vec<u32> = Vec::new();
        recent_ids.resize(cap, 0);
        let m = TextMessageModule {
            recent_ids,
            recent_idx: 0,
            last_text: None,
            observers: Vec::new(),
            calls: Ghost(Seq::empty()),
        };
        assert(m@ =~= fresh(capacity));
        m
    }

    /// Adds an observer behind the others, as a trait object. That its log is
    /// empty is left unsaid: nothing relates the spec functions of a trait
    /// object to those of the value in it.
    pub fn add_observer<F>(&mut self, cb: F) where F: FnMut(&MeshPacket) + Send + 'static
        requires
            takes_all(cb),
        ensures
            final(self)@ == (TextMessageView {
                heard: old(self)@.heard.push(unused_log(cb)),
                ..old(self)@
            }),
            final(self).calls() == old(self).calls(),
    {
        proof {
            use_type_invariant(&*self);
        }
        let mut observers: Vec<Observer> = Vec::new();
        std::mem::swap(&mut observers, &mut self.observers);
        observers.push(observe(Callback::new(cb)));
        self.observers = observers;
    }

    /// Whether an id is remembered; zero never is.
    pub fn recently_seen(&self, id: u32) -> (r: bool)
        ensures
            r == self@.recent.knows(id),
    {
        if id == 0 {
            return false;
        }
        let mut i: usize = 0;
        while i < self.recent_ids.len()
            invariant
                id != 0,
                i <= self.recent_ids.len(),
                forall|j: int| 0 <= j < i ==> self.recent_ids@[j] != id,
            decreases self.recent_ids.len() - i,
        {
            if self.recent_ids[i] == id {
                assert(self@.recent.ids[i as int] == id);
                return true;
            }
            i += 1;
        }
        false
    }

    /// The last text.
    pub fn last_text(&self) -> (r: Option<&MeshPacket>)
        ensures
            self@.last_text == match r {
                Some(p) => Some(p@),
                None => None,
            },
    {
        self.last_text.as_ref()
    }

    /// Forgets the last text.
    pub fn clear_last_text(&mut self)
        ensures
            final(self)@ == (TextMessageView { last_text: None, ..old(self)@ }),
            final(self).calls() == old(self).calls(),
    {
        proof {
            use_type_invariant(&*self);
        }
        self.last_text = None;
    }

    fn note_id(&mut self, id: u32)
        ensures
            final(self)@ == (TextMessageView { recent: old(self)@.recent.noted(id), ..old(self)@ }),
            final(self).observers == old(self).observers,
            final(self).calls == old(self).calls,
    {
        proof {
            use_type_invariant(&*self);
        }
        if id == 0 {
            return;
        }
        let i: usize = self.recent_idx;
        let len: usize = self.recent_ids.len();
        let next: usize = if i + 1 == len {
            0
        } else {
            i + 1
        };
        self.recent_ids[i] = id;
        self.recent_idx = next;
    }
}

impl Default for TextMessageModule {
    fn default() -> (m: Self)
        ensures
            m@ == fresh(DEFAULT_RECENT_CAPACITY),
            m.calls() == Seq::<Call>::empty(),
    {
        Self::new()
    }
}

fn notify(observers: &mut Vec<Observer>, packet: &MeshPacket)
    ensures
        final(observers)@.len() == old(observers)@.len(),
        forall|i: int|
            0 <= i < old(observers)@.len() ==> (#[trigger] final(observers)@[i]).heard() == old(
                observers,
            )@[i].heard().push(packet@),
{
    let mut i: usize = 0;
    while i < observers.len()
        invariant
            i <= observers@.len() == old(observers)@.len(),
            forall|j: int|
                0 <= j < i ==> (#[trigger] observers@[j]).heard() == old(
                    observers,
                )@[j].heard().push(packet@),
            forall|j: int|
                i <= j < observers@.len() ==> #[trigger] observers@[j] == old(observers)@[j],
        decreases observers.len() - i,
    {
        observers[i].observer.on_text(packet);
        i += 1;
    }
}

impl MeshModule for TextMessageModule {
    open spec fn promiscuous(&self) -> bool {
        false
    }

    open spec fn loopback(&self) -> bool {
        false
    }

    open spec fn encrypted(&self) -> bool {
        false
    }

    open spec fn bound(&self) -> Option<Seq<char>> {
        None
    }

    open spec fn wants(&self, p: MeshPacketView) -> bool {
        is_text(p)
    }

    closed spec fn calls(&self) -> Seq<Call> {
        self.calls@
    }

    fn name(&self) -> (r: &str)
        ensures
            r@ == "text"@,
    {
        "text"
    }

    fn is_promiscuous(&self) -> (r: bool) {
        false
    }

    fn loopback_ok(&self) -> (r: bool) {
        false
    }

    fn encrypted_ok(&self) -> (r: bool) {
        false
    }

    fn bound_channel(&self) -> (r: Option<&str>) {
        None
    }

    fn want_packet(&self, packet: &MeshPacket) -> (r: bool) {
        match &packet.payload_variant {
            Some(PayloadVariantOf::Decoded(d)) => d.portnum == PORT_TEXT_MESSAGE,
            _ => false,
        }
    }

    fn handle_received(
        &mut self,
        packet: &MeshPacket,
        ctx: &ModuleContext<'_>,
    ) -> (r: ProcessMessage)
        ensures
            r == ProcessMessage::Continue,
            final(self)@ == after_text(old(self)@, packet@),
    {
        self.note_id(packet.id);
        proof {
            use_type_invariant(&*self);
        }
        self.last_text = Some(packet.clone());
        let mut observers: Vec<Observer> = Vec::new();
        std::mem::swap(&mut observers, &mut self.observers);
        notify(&mut observers, packet);
        self.observers = observers;
        self.calls = Ghost(
            self.calls@.push(
                Call::Handled {
                    packet: packet@,
                    ctx: ctx@,
                    decision: ProcessMessage::Continue,
                },
            ),
        );
        assert(self@ =~= after_text(old(self)@, packet@));
        ProcessMessage::Continue
    }

    fn alloc_reply(&mut self, request: &MeshPacket) -> (r: Option<MeshPacket>)
        ensures
            r is None,
            final(self)@ == old(self)@,
    {
        proof {
            use_type_invariant(&*self);
        }
        self.calls = Ghost(self.calls@.push(Call::Asked { request: request@, reply: None }));
        None
    }
}

// ---------------------------------------------------------------------------
// Laws
// ---------------------------------------------------------------------------

/// A text that was noted is remembered; the number of ids that are remembered
/// stays.
pub proof fn lemma_noted(m: RecentIds, id: u32)
    requires
        m.wf(),
    ensures
        m.noted(id).wf(),
        m.noted(id).ids.len() == m.ids.len(),
        id != 0 ==> m.noted(id).knows(id),
{
    if id != 0 {
        assert(m.noted(id).ids[m.next] == id);
    }
}

/// An id is remembered as long as fewer further texts came than there are
/// slots.
pub proof fn lemma_remembered(m: RecentIds, id: u32, later: Seq<u32>)
    requires
        m.wf(),
        id != 0,
        forall|i: int| 0 <= i < later.len() ==> later[i] != 0,
        later.len() < m.ids.len(),
    ensures
        m.noted(id).noted_all(later).knows(id),
{
    lemma_ring(m.noted(id), m.next, later);
    assert(m.noted(id).noted_all(later).ids[m.next] == id);
}

/// Once as many further texts came as there are slots, all of them with other
/// ids, an id is forgotten.
pub proof fn lemma_forgotten(m: RecentIds, id: u32, later: Seq<u32>)
    requires
        m.wf(),
        forall|i: int| 0 <= i < later.len() ==> later[i] != 0 && later[i] != id,
        later.len() == m.ids.len(),
    ensures
        !m.noted_all(later).knows(id),
{
    lemma_overwritten(m, later);
    let after = m.noted_all(later);
    assert forall|s: int| 0 <= s < after.ids.len() implies after.ids[s] != id by {
        let k = if s >= m.next {
            s - m.next
        } else {
            s - m.next + m.ids.len()
        };
        assert(slot_at(m, k) == s);
        assert(after.ids[slot_at(m, k)] == later[k]);
    }
}

/// The slot that the text `k` texts from now is noted in.
spec fn slot_at(m: RecentIds, k: int) -> int {
    if m.next + k < m.ids.len() {
        m.next + k
    } else {
        m.next + k - m.ids.len()
    }
}

proof fn lemma_overwritten(m: RecentIds, later: Seq<u32>)
    requires
        m.wf(),
        forall|i: int| 0 <= i < later.len() ==> later[i] != 0,
        later.len() <= m.ids.len(),
    ensures
        m.noted_all(later).ids.len() == m.ids.len(),
        m.noted_all(later).wf(),
        later.len() < m.ids.len() ==> m.noted_all(later).next == slot_at(m, later.len() as int),
        forall|k: int|
            0 <= k < later.len() ==> m.noted_all(later).ids[#[trigger] slot_at(m, k)] == later[k],
        forall|k: int|
            later.len() <= k < m.ids.len() ==> m.noted_all(later).ids[#[trigger] slot_at(m, k)]
                == m.ids[slot_at(m, k)],
    decreases later.len(),
{
    if later.len() > 0 {
        lemma_overwritten(m, later.drop_last());
    }
}

proof fn lemma_ring(m: RecentIds, kept: int, later: Seq<u32>)
    requires
        m.wf(),
        0 <= kept < m.ids.len(),
        m.next == if kept + 1 == m.ids.len() {
            0
        } else {
            kept + 1
        },
        forall|i: int| 0 <= i < later.len() ==> later[i] != 0,
        later.len() < m.ids.len(),
    ensures
        m.noted_all(later).ids.len() == m.ids.len(),
        m.noted_all(later).ids[kept] == m.ids[kept],
{
    lemma_overwritten(m, later);
    assert(slot_at(m, m.ids.len() - 1) == kept);
}

/// Which packets the module sees: decoded ones on the port for texts, for this node or for
/// all, on whichever channel, and none of this node itself.
pub proof fn lemma_what_is_seen(m: TextMessageModule, p: MeshPacketView)
    ensures
        m.wants(p) <==> (p.payload_variant matches Some(PayloadVariantOf::Decoded(d)) && d.portnum
            == 1),
        !m.promiscuous(),
        !m.loopback(),
        !m.encrypted(),
        m.bound() is None,
{
}

/// A text is kept as the last one, as it is, and every observer is told of it once, as it
/// is, after all that it was told of before. No observer comes or goes. A text without an
/// id is not remembered, and changes nothing in what is.
pub proof fn lemma_text_taken(m: TextMessageView, p: MeshPacketView)
    ensures
        after_text(m, p).last_text == Some(p),
        after_text(m, p).heard.len() == m.heard.len(),
        forall|i: int|
            0 <= i < m.heard.len() ==> (#[trigger] after_text(m, p).heard[i]).len()
                == m.heard[i].len() + 1 && after_text(m, p).heard[i].drop_last() == m.heard[i]
                && after_text(m, p).heard[i].last() == p,
        p.id == 0 ==> after_text(m, p).recent == m.recent,
        m.recent.wf() && p.id != 0 ==> after_text(m, p).recent.knows(p.id),
{
    assert forall|i: int| 0 <= i < m.heard.len() implies (#[trigger] after_text(
        m,
        p,
    ).heard[i]).drop_last() == m.heard[i] by {
        assert(after_text(m, p).heard[i].drop_last() =~= m.heard[i]);
    }
    if m.recent.wf() {
        lemma_noted(m.recent, p.id);
    }
}

/// Which ids are remembered: never zero; every other is if and only if some slot holds it.
pub proof fn lemma_knows(m: RecentIds, id: u32)
    ensures
        !m.knows(0),
        id != 0 ==> (m.knows(id) <==> exists|i: int| 0 <= i < m.ids.len() && m.ids[i] == id),
{
}

/// One more text makes the module forget at most one id, that of the slot which it takes,
/// and remember no id but its own.
pub proof fn lemma_noted_others(m: RecentIds, id: u32, other: u32)
    requires
        m.wf(),
        other != id,
        other != 0,
    ensures
        m.noted(id).knows(other) ==> m.knows(other),
        m.knows(other) && m.ids[m.next] != other ==> m.noted(id).knows(other),
        id == 0 ==> m.noted(id) == m,
{
    let after = m.noted(id);
    if after.knows(other) && id != 0 {
        let i = choose|i: int| 0 <= i < after.ids.len() && after.ids[i] == other;
        assert(i != m.next && m.ids[i] == other);
    }
    if m.knows(other) && m.ids[m.next] != other && id != 0 {
        let i = choose|i: int| 0 <= i < m.ids.len() && m.ids[i] == other;
        assert(after.ids[i] == other);
    }
}

/// A new module remembers no id, has no text and no observers, and has as many slots as
/// asked for, at least one.
pub proof fn lemma_fresh(capacity: usize, id: u32)
    ensures
        !fresh(capacity).recent.knows(id),
        fresh(capacity).recent.wf(),
        fresh(capacity).last_text is None,
        fresh(capacity).heard.len() == 0,
        capacity >= 1 ==> fresh(capacity).recent.ids.len() == capacity,
        capacity == 0 ==> fresh(capacity).recent.ids.len() == 1,
{
}

} // verus!
