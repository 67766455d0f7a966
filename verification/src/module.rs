//! Feature modules and their dispatcher.
//!
//! A module sees the packets that it is interested in and may answer them.
//! [`ModuleDispatcher::dispatch`] offers a packet to the modules in the order
//! in which they were registered, until one stops it, and keeps the first
//! reply.

use crate::mesh::{self, get_from, is_broadcast, is_from_us, NodeNum, NODENUM_BROADCAST};
use crate::message;
use crate::proto::channel::{Channel, ChannelView};
use crate::proto::packet::{DataOf, MeshPacket, MeshPacketOf, MeshPacketView, PayloadVariantOf};
use crate::text::{self, eq_ignoring_case};
use vstd::prelude::*;

verus! {

/// What a module makes of a packet.
#[derive(Debug, Clone, Copy, PartialEq, Eq, Structural)]
pub enum ProcessMessage {
    /// Later modules may see the packet too.
    Continue,
    /// Later modules do not see the packet.
    Stop,
}

/// Where a packet comes from.
#[derive(Debug, Clone, Copy, PartialEq, Eq, Structural)]
pub enum RxSource {
    /// From another node.
    Radio,
    /// From this node itself.
    Local,
}

/// What a module is told beside the packet.
#[derive(Debug, Clone, Copy)]
pub struct ModuleContext<'a> {
    /// The number of this node.
    pub our_node_num: NodeNum,
    /// Where the packet comes from.
    pub src: RxSource,
    /// The channel that a decoded packet came on.
    pub channel: Option<&'a Channel>,
}

/// What a module is told beside the packet, in the abstract.
#[verifier::ext_equal]
pub struct ContextView {
    pub our_node_num: NodeNum,
    pub src: RxSource,
    pub channel: Option<ChannelView>,
}

impl<'a> View for ModuleContext<'a> {
    type V = ContextView;

    open spec fn view(&self) -> ContextView {
        ContextView {
            our_node_num: self.our_node_num,
            src: self.src,
            channel: channel_view(self.channel),
        }
    }
}

/// A call of a module, with its answer.
pub enum Call {
    /// The module was handed a packet.
    Handled { packet: MeshPacketView, ctx: ContextView, decision: ProcessMessage },
    /// The module was asked for the reply to a packet.
    Asked { request: MeshPacketView, reply: Option<MeshPacketView> },
}

/// A feature of the node.
///
/// The contract of [`ModuleDispatcher::dispatch`] goes by the spec functions, so it
/// holds of modules that define them as their other methods answer.
pub trait MeshModule {
    /// Whether the module sees packets for other nodes.
    open spec fn promiscuous(&self) -> bool {
        false
    }

    /// Whether the module sees packets of this node.
    open spec fn loopback(&self) -> bool {
        false
    }

    /// Whether the module sees packets that were not decrypted.
    open spec fn encrypted(&self) -> bool {
        false
    }

    /// The name of the channel that the module is bound to.
    open spec fn bound(&self) -> Option<Seq<char>> {
        None
    }

    /// Whether the module wants a packet.
    open spec fn wants(&self, p: MeshPacketView) -> bool {
        false
    }

    /// The calls that the module got, with its answers.
    open spec fn calls(&self) -> Seq<Call> {
        Seq::empty()
    }

    /// The name of the module, for diagnostics.
    fn name(&self) -> &str;

    /// Whether the module sees packets for other nodes.
    fn is_promiscuous(&self) -> (r: bool)
        ensures
            r == self.promiscuous(),
    ;

    /// Whether the module sees packets of this node.
    fn loopback_ok(&self) -> (r: bool)
        ensures
            r == self.loopback(),
    ;

    /// Whether the module sees packets that were not decrypted.
    fn encrypted_ok(&self) -> (r: bool)
        ensures
            r == self.encrypted(),
    ;

    /// The name of the channel that the module is bound to. Letter case does
    /// not matter.
    fn bound_channel(&self) -> (r: Option<&str>)
        ensures
            self.bound() == match r {
                Some(s) => Some(s@),
                None => None,
            },
    ;

    /// Whether the module wants a packet.
    fn want_packet(&self, packet: &MeshPacket) -> (r: bool)
        ensures
            r == self.wants(packet@),
    ;

    /// Handles a packet.
    fn handle_received(&mut self, packet: &MeshPacket, ctx: &ModuleContext<'_>) -> (r:
        ProcessMessage)
        ensures
            final(self).calls() == old(self).calls().push(
                Call::Handled { packet: packet@, ctx: ctx@, decision: r },
            ),
    ;

    /// The reply to a packet that asks for one.
    fn alloc_reply(&mut self, request: &MeshPacket) -> (r: Option<MeshPacket>)
        ensures
            final(self).calls() == old(self).calls().push(
                Call::Asked { request: request@, reply: message::opt_view(r) },
            ),
    ;
}

/// Whether a packet is decoded.
pub open spec fn is_decoded(p: MeshPacketView) -> bool {
    p.payload_variant matches Some(PayloadVariantOf::Decoded(_))
}

/// Whether a packet is for this node.
pub open spec fn to_us(p: MeshPacketView, our_node_num: NodeNum) -> bool {
    p.to == NODENUM_BROADCAST || p.to == our_node_num
}

/// Whether a packet may reach a module that is bound to a channel: it comes
/// from this node, or on a channel of that name.
pub open spec fn on_bound_channel(
    bound: Seq<char>,
    p: MeshPacketView,
    channel: Option<ChannelView>,
) -> bool {
    p.from == 0 || (channel matches Some(c) && (c.settings matches Some(s)
        && text::same_ignoring_case(s.name, bound)))
}

/// Whether a module sees a packet.
pub open spec fn interested<M: MeshModule + ?Sized>(
    m: &M,
    p: MeshPacketView,
    ctx: ContextView,
) -> bool {
    &&& ctx.src == RxSource::Local ==> m.loopback()
    &&& !is_decoded(p) ==> m.encrypted()
    &&& !to_us(p, ctx.our_node_num) ==> m.promiscuous()
    &&& m.wants(p)
    &&& is_decoded(p) ==> (m.bound() matches Some(name) ==> on_bound_channel(name, p, ctx.channel))
}

/// A module in the table.
pub struct Registered {
    module: Box<dyn MeshModule>,
}

impl Registered {
    /// Whether the module sees a packet.
    pub closed spec fn interested(&self, p: MeshPacketView, ctx: ContextView) -> bool {
        interested(&*self.module, p, ctx)
    }

    /// The calls that the module got, with its answers.
    pub closed spec fn calls(&self) -> Seq<Call> {
        self.module.calls()
    }
}

/// A module as an entry of the table.
pub closed spec fn registered<M: MeshModule + 'static>(module: M) -> Registered {
    Registered { module: Box::new(module) }
}

fn register_module<M: MeshModule + 'static>(module: M) -> (r: Registered)
    ensures
        r == registered(module),
{
    Registered { module: Box::new(module) }
}

/// Whether a module sees a packet.
pub fn is_interested<M: MeshModule + ?Sized>(
    m: &M,
    packet: &MeshPacket,
    ctx: &ModuleContext<'_>,
) -> (r: bool)
    ensures
        r == interested(m, packet@, ctx@),
{
    let decoded = matches!(packet.payload_variant, Some(PayloadVariantOf::Decoded(_)));
    if ctx.src == RxSource::Local && !m.loopback_ok() {
        return false;
    }
    if !decoded && !m.encrypted_ok() {
        return false;
    }
    if !(is_broadcast(packet.to) || packet.to == ctx.our_node_num) && !m.is_promiscuous() {
        return false;
    }
    if !m.want_packet(packet) {
        return false;
    }
    if decoded {
        if let Some(bound) = m.bound_channel() {
            if packet.from == 0 {
                return true;
            }
            return match ctx.channel {
                Some(c) => match &c.settings {
                    Some(s) => eq_ignoring_case(s.name.as_str(), bound),
                    None => false,
                },
                None => false,
            };
        }
    }
    true
}

/// The view of a channel that may be absent.
pub open spec fn channel_view(c: Option<&Channel>) -> Option<ChannelView> {
    match c {
        Some(c) => Some(c@),
        None => None,
    }
}

/// The registered modules.
pub struct ModuleDispatcher {
    modules: Vec<Registered>,
}

impl ModuleDispatcher {
    /// The number of modules.
    pub closed spec fn count(&self) -> nat {
        self.modules@.len()
    }

    /// The module at a position.
    pub closed spec fn module(&self, i: int) -> Registered {
        self.modules@[i]
    }

    /// Without modules.
    pub fn new() -> (d: Self)
        ensures
            d.count() == 0,
    {
        ModuleDispatcher { modules: Vec::new() }
    }

    /// Adds a module behind the others, as a trait object. That the trait object
    /// is interested in the packets that the module is interested in is left
    /// unsaid: nothing relates the spec functions of the two.
    pub fn register<M: MeshModule + 'static>(&mut self, module: M) -> (r: &mut Self)
        ensures
            r.count() == old(self).count() + 1,
            forall|i: int| 0 <= i < old(self).count() ==> r.module(i) == old(self).module(i),
            r.module(old(self).count() as int) == registered(module),
            *final(r) == *final(self),
    {
        self.modules.push(register_module(module));
        self
    }

    /// The number of modules.
    pub fn len(&self) -> (n: usize)
        ensures
            n == self.count(),
    {
        self.modules.len()
    }

    /// Whether there are no modules.
    pub fn is_empty(&self) -> (r: bool)
        ensures
            r <==> self.count() == 0,
    {
        self.modules.len() == 0
    }

    /// Whether the module at a position sees a packet.
    pub open spec fn sees(&self, i: int, p: MeshPacketView, ctx: ContextView) -> bool {
        self.module(i).interested(p, ctx)
    }

    /// Whether the module at a position is handed a packet: it sees it, and no
    /// module before it stops it.
    pub open spec fn is_handed(
        &self,
        i: int,
        p: MeshPacketView,
        ctx: ContextView,
        answers: Seq<Answer>,
    ) -> bool {
        self.sees(i, p, ctx) && outcome_of(self, p, ctx, answers, i as nat).stopped_by is None
    }

    /// The calls that the module at a position gets for a packet: it is handed the
    /// packet once and, if the packet asks for a reply and no module before it
    /// gave one, asked for the reply once.
    pub open spec fn new_calls(
        &self,
        i: int,
        p: MeshPacketView,
        ctx: ContextView,
        answers: Seq<Answer>,
    ) -> Seq<Call> {
        if !self.is_handed(i, p, ctx, answers) {
            Seq::empty()
        } else if asks_reply(p, ctx.our_node_num) && outcome_of(
            self,
            p,
            ctx,
            answers,
            i as nat,
        ).reply is None {
            seq![
                Call::Handled { packet: p, ctx, decision: answers[i].decision },
                Call::Asked { request: p, reply: answers[i].reply },
            ]
        } else {
            seq![Call::Handled { packet: p, ctx, decision: answers[i].decision }]
        }
    }

    /// Whether the first `n` modules got their calls for a packet, and no others,
    /// with these answers.
    pub open spec fn called(
        &self,
        after: &ModuleDispatcher,
        p: MeshPacketView,
        ctx: ContextView,
        answers: Seq<Answer>,
        n: int,
    ) -> bool {
        forall|i: int|
            0 <= i < n ==> (#[trigger] after.module(i)).calls() == self.module(i).calls()
                + self.new_calls(i, p, ctx, answers)
    }

    /// Offers a packet to the modules that are interested in it, in order,
    /// until one stops it. Keeps the first reply if the packet asks for one.
    pub fn dispatch(
        &mut self,
        packet: &MeshPacket,
        src: RxSource,
        our_node_num: NodeNum,
        rx_channel: Option<&Channel>,
    ) -> (r: DispatchOutcome)
        ensures
            ({
                let ctx = ContextView { our_node_num, src, channel: channel_view(rx_channel) };
                &&& exists|answers: Seq<Answer>|
                    answers.len() == old(self).count() && old(self).called(
                        final(self),
                        packet@,
                        ctx,
                        answers,
                        answers.len() as int,
                    ) && r@ == #[trigger] outcome_of(
                        old(self),
                        packet@,
                        ctx,
                        answers,
                        old(self).count(),
                    )
                &&& r.module_found <==> exists|i: int|
                    0 <= i < old(self).count() && #[trigger] old(self).sees(i, packet@, ctx)
                &&& forall|i: int|
                    0 <= i < old(self).count() && (!old(self).sees(i, packet@, ctx) || (
                    r.stopped_by matches Some(k) && k < i)) ==> #[trigger] final(self).module(i)
                        == old(self).module(i)
            }),
            r.reply is Some ==> asks_reply(packet@, our_node_num),
            final(self).count() == old(self).count(),
    {
        let ctx = ModuleContext { our_node_num, src, channel: rx_channel };
        let ghost c = ContextView { our_node_num, src, channel: channel_view(rx_channel) };
        let ghost mut answers: Seq<Answer> = Seq::empty();
        let asks = asks_for_reply(packet, our_node_num);
        let mut outcome = DispatchOutcomeOf { module_found: false, reply: None, stopped_by: None };
        let n: usize = self.modules.len();
        let mut i: usize = 0;
        while i < n && outcome.stopped_by.is_none()
            invariant
                i <= n == self.modules@.len() == old(self).modules@.len(),
                c == ctx@,
                c.our_node_num == our_node_num,
                asks == asks_reply(packet@, our_node_num),
                answers.len() == i,
                old(self).called(self, packet@, c, answers, i as int),
                outcome@ == outcome_of(old(self), packet@, c, answers, i as nat),
                outcome.module_found <==> exists|j: int|
                    0 <= j < i && #[trigger] old(self).sees(j, packet@, c),
                outcome.reply is Some ==> asks,
                outcome.stopped_by matches Some(k) ==> k == i - 1 && old(self).sees(
                    k as int,
                    packet@,
                    c,
                ),
                forall|j: int|
                    0 <= j < n && (j >= i || !old(self).sees(j, packet@, c))
                        ==> #[trigger] self.modules@[j] == old(self).modules@[j],
            decreases n - i,
        {
            let ghost before = answers;
            let ghost mut answer = Answer { decision: ProcessMessage::Continue, reply: None };
            assert(self.modules@[i as int] == old(self).modules@[i as int]);
            let ghost prior = *self;
            if is_interested(&*self.modules[i].module, packet, &ctx) {
                assert(old(self).sees(i as int, packet@, c));
                let decision = self.modules[i].module.handle_received(packet, &ctx);
                let mut reply: Option<MeshPacket> = None;
                if asks && outcome.reply.is_none() {
                    reply = self.modules[i].module.alloc_reply(packet);
                }
                proof {
                    answer = Answer { decision, reply: message::opt_view(reply) };
                }
                outcome.record(i, decision, reply, packet, our_node_num);
            }
            proof {
                answers = answers.push(answer);
                lemma_answers_extend(old(self), packet@, c, before, answers);
                assert(outcome_of(old(self), packet@, c, answers, i as nat) == outcome_of(
                    old(self),
                    packet@,
                    c,
                    before,
                    i as nat,
                ));
                assert forall|j: int| 0 <= j < i + 1 implies (#[trigger] self.module(j)).calls()
                    == old(self).module(j).calls() + old(self).new_calls(
                    j,
                    packet@,
                    c,
                    answers,
                ) by {
                    if j < i {
                        assert(self.module(j) == prior.module(j));
                    }
                }
            }
            i += 1;
        }
        proof {
            let rest = Seq::new(
                (n - i) as nat,
                |j: int| Answer { decision: ProcessMessage::Continue, reply: None },
            );
            lemma_answers_extend(old(self), packet@, c, answers, answers + rest);
            lemma_outcome_stopped(old(self), packet@, c, answers + rest, i as nat, n as nat);
            assert forall|j: nat| i <= j < n implies (#[trigger] outcome_of(
                old(self),
                packet@,
                c,
                answers + rest,
                j,
            )).stopped_by is Some by {
                lemma_outcome_stopped(old(self), packet@, c, answers + rest, i as nat, j);
            }
            assert(old(self).called(self, packet@, c, answers + rest, n as int));
            assert(outcome@ == outcome_of(
                old(self),
                packet@,
                c,
                answers + rest,
                old(self).count(),
            ));
            if outcome.stopped_by is Some {
                assert(old(self).sees(i - 1, packet@, c));
            }
        }
        outcome
    }
}

impl Default for ModuleDispatcher {
    fn default() -> (d: Self)
        ensures
            d.count() == 0,
    {
        Self::new()
    }
}

/// What became of a packet, over the type `P` of packets.
#[verifier::ext_equal]
#[derive(Debug)]
pub struct DispatchOutcomeOf<P> {
    /// A module saw the packet.
    pub module_found: bool,
    /// The reply to send.
    pub reply: Option<P>,
    /// The position of the module that stopped the packet.
    pub stopped_by: Option<usize>,
}

/// What became of a packet.
pub type DispatchOutcome = DispatchOutcomeOf<MeshPacket>;

impl View for DispatchOutcomeOf<MeshPacket> {
    type V = DispatchOutcomeOf<MeshPacketView>;

    open spec fn view(&self) -> DispatchOutcomeOf<MeshPacketView> {
        DispatchOutcomeOf {
            module_found: self.module_found,
            reply: message::opt_view(self.reply),
            stopped_by: self.stopped_by,
        }
    }
}

impl Clone for DispatchOutcomeOf<MeshPacket> {
    fn clone(&self) -> (r: Self)
        ensures
            r@ == self@,
    {
        DispatchOutcomeOf {
            module_found: self.module_found,
            reply: match &self.reply {
                Some(x) => Some(x.clone()),
                None => None,
            },
            stopped_by: self.stopped_by,
        }
    }
}

impl Default for DispatchOutcomeOf<MeshPacket> {
    fn default() -> (r: Self)
        ensures
            r@ == nothing_found(),
    {
        DispatchOutcomeOf { module_found: false, reply: None, stopped_by: None }
    }
}

/// The outcome before any module saw the packet.
pub open spec fn nothing_found() -> DispatchOutcomeOf<MeshPacketView> {
    DispatchOutcomeOf { module_found: false, reply: None, stopped_by: None }
}

/// Whether a packet asks this node for a reply: it wants one, it is for this
/// node, and it comes from another node or is for this node alone.
pub open spec fn asks_reply(p: MeshPacketView, our_node_num: NodeNum) -> bool {
    &&& p.payload_variant matches Some(PayloadVariantOf::Decoded(d)) && d.want_response
    &&& to_us(p, our_node_num)
    &&& mesh::sender_of(p, our_node_num) != our_node_num || p.to == our_node_num
}

fn asks_for_reply(packet: &MeshPacket, our_node_num: NodeNum) -> (r: bool)
    ensures
        r == asks_reply(packet@, our_node_num),
{
    let want_response = match &packet.payload_variant {
        Some(PayloadVariantOf::Decoded(d)) => d.want_response,
        _ => false,
    };
    let to_us = is_broadcast(packet.to) || packet.to == our_node_num;
    want_response && to_us && (!is_from_us(packet, our_node_num) || packet.to == our_node_num)
}

/// A reply as it is sent: to the sender of the request, on its channel, with an
/// acknowledgement if the request came from another node that wants one, and
/// with the id of the request.
pub open spec fn addressed(
    reply: MeshPacketView,
    request: MeshPacketView,
    our_node_num: NodeNum,
) -> MeshPacketView {
    MeshPacketOf {
        to: mesh::sender_of(request, our_node_num),
        channel: request.channel,
        want_ack: request.from != 0 && request.want_ack,
        payload_variant: match reply.payload_variant {
            Some(PayloadVariantOf::Decoded(d)) => Some(
                PayloadVariantOf::Decoded(DataOf { request_id: request.id, ..d }),
            ),
            other => other,
        },
        ..reply
    }
}

fn set_reply_to(reply: &mut MeshPacket, request: &MeshPacket, our_node_num: NodeNum)
    ensures
        final(reply)@ == addressed(old(reply)@, request@, our_node_num),
{
    reply.to = get_from(request, our_node_num);
    reply.channel = request.channel;
    reply.want_ack = request.from != 0 && request.want_ack;
    match reply.payload_variant.take() {
        Some(PayloadVariantOf::Decoded(mut data)) => {
            data.request_id = request.id;
            reply.payload_variant = Some(PayloadVariantOf::Decoded(data));
        },
        other => reply.payload_variant = other,
    }
}

/// What a module answered.
#[verifier::ext_equal]
pub struct Answer {
    pub decision: ProcessMessage,
    pub reply: Option<MeshPacketView>,
}

/// What the answer of the module at position `i` makes of an outcome.
pub open spec fn recorded(
    o: DispatchOutcomeOf<MeshPacketView>,
    i: usize,
    answer: Answer,
    request: MeshPacketView,
    our_node_num: NodeNum,
) -> DispatchOutcomeOf<MeshPacketView> {
    DispatchOutcomeOf {
        module_found: true,
        reply: match (o.reply, answer.reply) {
            (None, Some(reply)) if asks_reply(request, our_node_num) => Some(
                addressed(reply, request, our_node_num),
            ),
            _ => o.reply,
        },
        stopped_by: if answer.decision == ProcessMessage::Stop {
            Some(i)
        } else {
            o.stopped_by
        },
    }
}

impl DispatchOutcomeOf<MeshPacket> {
    /// Records the answer of the module at position `i`.
    pub fn record(
        &mut self,
        i: usize,
        decision: ProcessMessage,
        reply: Option<MeshPacket>,
        request: &MeshPacket,
        our_node_num: NodeNum,
    )
        ensures
            final(self)@ == recorded(
                old(self)@,
                i,
                Answer { decision, reply: message::opt_view(reply) },
                request@,
                our_node_num,
            ),
    {
        self.module_found = true;
        if self.reply.is_none() && asks_for_reply(request, our_node_num) {
            if let Some(mut reply) = reply {
                set_reply_to(&mut reply, request, our_node_num);
                self.reply = Some(reply);
            }
        }
        if decision == ProcessMessage::Stop {
            self.stopped_by = Some(i);
        }
    }
}

/// The outcome after the first `n` modules, given what each of them answers if
/// it sees the packet.
pub open spec fn outcome_of(
    d: &ModuleDispatcher,
    p: MeshPacketView,
    ctx: ContextView,
    answers: Seq<Answer>,
    n: nat,
) -> DispatchOutcomeOf<MeshPacketView>
    decreases n,
{
    if n == 0 {
        nothing_found()
    } else {
        let before = outcome_of(d, p, ctx, answers, (n - 1) as nat);
        if before.stopped_by is Some || !d.sees(n - 1, p, ctx) {
            before
        } else {
            recorded(before, (n - 1) as usize, answers[n - 1], p, ctx.our_node_num)
        }
    }
}

/// Answers beyond the first `n` do not matter to the first `n` modules.
proof fn lemma_outcome_prefix(
    d: &ModuleDispatcher,
    p: MeshPacketView,
    ctx: ContextView,
    a: Seq<Answer>,
    b: Seq<Answer>,
    n: nat,
)
    requires
        n <= a.len(),
        n <= b.len(),
        forall|i: int| 0 <= i < n ==> a[i] == b[i],
    ensures
        outcome_of(d, p, ctx, a, n) == outcome_of(d, p, ctx, b, n),
    decreases n,
{
    if n > 0 {
        lemma_outcome_prefix(d, p, ctx, a, b, (n - 1) as nat);
    }
}

/// More answers leave the outcome and the calls of the first modules as they are.
proof fn lemma_answers_extend(
    d: &ModuleDispatcher,
    p: MeshPacketView,
    ctx: ContextView,
    a: Seq<Answer>,
    b: Seq<Answer>,
)
    requires
        a.len() <= b.len(),
        forall|i: int| 0 <= i < a.len() ==> a[i] == b[i],
    ensures
        forall|i: nat|
            i <= a.len() ==> #[trigger] outcome_of(d, p, ctx, b, i) == outcome_of(d, p, ctx, a, i),
        forall|i: int|
            0 <= i < a.len() ==> #[trigger] d.new_calls(i, p, ctx, b) == d.new_calls(i, p, ctx, a),
{
    assert forall|i: nat| i <= a.len() implies #[trigger] outcome_of(d, p, ctx, b, i)
        == outcome_of(d, p, ctx, a, i) by {
        lemma_outcome_prefix(d, p, ctx, a, b, i);
    }
}

/// Once a module stopped the packet, later modules change nothing.
proof fn lemma_outcome_stopped(
    d: &ModuleDispatcher,
    p: MeshPacketView,
    ctx: ContextView,
    answers: Seq<Answer>,
    i: nat,
    n: nat,
)
    requires
        i <= n,
        i == n || outcome_of(d, p, ctx, answers, i).stopped_by is Some,
    ensures
        outcome_of(d, p, ctx, answers, n) == outcome_of(d, p, ctx, answers, i),
    decreases n - i,
{
    if i < n {
        lemma_outcome_stopped(d, p, ctx, answers, i, (n - 1) as nat);
    }
}

/// Only the first reply is kept: once there is one, no answer changes it.
pub proof fn lemma_first_reply_kept(
    o: DispatchOutcomeOf<MeshPacketView>,
    i: usize,
    answer: Answer,
    request: MeshPacketView,
    our_node_num: NodeNum,
)
    requires
        o.reply is Some,
    ensures
        recorded(o, i, answer, request, our_node_num).reply == o.reply,
{
}

/// A packet that one module stopped is seen by no later one.
pub proof fn lemma_stop_is_final(
    d: &ModuleDispatcher,
    p: MeshPacketView,
    ctx: ContextView,
    answers: Seq<Answer>,
    i: nat,
    n: nat,
)
    requires
        i < n,
        outcome_of(d, p, ctx, answers, i).stopped_by is None,
        d.sees(i as int, p, ctx),
        answers[i as int].decision == ProcessMessage::Stop,
    ensures
        outcome_of(d, p, ctx, answers, n) == outcome_of(d, p, ctx, answers, i + 1),
        outcome_of(d, p, ctx, answers, n).stopped_by == Some(i as usize),
{
    lemma_outcome_stopped(d, p, ctx, answers, i + 1, n);
}

// ---------------------------------------------------------------------------
// Laws
// ---------------------------------------------------------------------------

/// Who sees a packet. A module that is not for packets of this node sees none that comes
/// from it; one that is not for encrypted packets sees none that is not decoded; one that
/// is not promiscuous sees none for another node alone; one that is bound to a channel
/// sees, of the decoded packets that name a sender, only those that came on a channel of
/// that name; and none sees a packet that it does not want. Every other module sees it.
pub proof fn lemma_interested<M: MeshModule + ?Sized>(m: &M, p: MeshPacketView, ctx: ContextView)
    ensures
        ({
            let decoded = p.payload_variant matches Some(PayloadVariantOf::Decoded(_));
            let elsewhere = p.to != 0xffff_ffff && p.to != ctx.our_node_num;
            let named = |name: Seq<char>|
                ctx.channel matches Some(c) && (c.settings matches Some(s)
                    && text::same_ignoring_case(s.name, name));
            &&& ctx.src == RxSource::Local && !m.loopback() ==> !interested(m, p, ctx)
            &&& !decoded && !m.encrypted() ==> !interested(m, p, ctx)
            &&& elsewhere && !m.promiscuous() ==> !interested(m, p, ctx)
            &&& !m.wants(p) ==> !interested(m, p, ctx)
            &&& decoded && p.from != 0 ==> (m.bound() matches Some(name) ==> !named(name)
                ==> !interested(m, p, ctx))
            &&& {
                &&& m.wants(p)
                &&& ctx.src == RxSource::Radio || m.loopback()
                &&& decoded || m.encrypted()
                &&& !elsewhere || m.promiscuous()
                &&& !decoded || p.from == 0 || (m.bound() matches Some(name) ==> named(name))
            } ==> interested(m, p, ctx)
        }),
{
}

/// Which packets ask this node for a reply: decoded ones that want a response, are for
/// this node or for all, and are not a broadcast of this node itself.
pub proof fn lemma_asks_reply(p: MeshPacketView, our_node_num: NodeNum)
    ensures
        !(p.payload_variant matches Some(PayloadVariantOf::Decoded(d)) && d.want_response)
            ==> !asks_reply(p, our_node_num),
        p.to != 0xffff_ffff && p.to != our_node_num ==> !asks_reply(p, our_node_num),
        (p.from == 0 || p.from == our_node_num) && p.to != our_node_num ==> !asks_reply(
            p,
            our_node_num,
        ),
        (p.payload_variant matches Some(PayloadVariantOf::Decoded(d)) && d.want_response) && (p.to
            == our_node_num || (p.to == 0xffff_ffff && p.from != 0 && p.from != our_node_num))
            ==> asks_reply(p, our_node_num),
{
}

/// A reply goes to the sender of the request, on its channel, and names the request. It
/// asks for an acknowledgement if the request did and names its sender. All else of the
/// reply stays as the module wrote it.
pub proof fn lemma_addressed(
    reply: MeshPacketView,
    request: MeshPacketView,
    our_node_num: NodeNum,
)
    ensures
        ({
            let r = addressed(reply, request, our_node_num);
            &&& request.from != 0 ==> r.to == request.from && r.want_ack == request.want_ack
            &&& request.from == 0 ==> r.to == our_node_num && !r.want_ack
            &&& r.channel == request.channel
            &&& reply.payload_variant matches Some(PayloadVariantOf::Decoded(d)) ==> (
            r.payload_variant matches Some(PayloadVariantOf::Decoded(e)) && e.request_id
                == request.id && e.portnum == d.portnum && e.payload == d.payload
                && e.want_response == d.want_response && e.reply_id == d.reply_id && e.dest
                == d.dest && e.source == d.source && e.emoji == d.emoji && e.bitfield == d.bitfield)
            &&& !(reply.payload_variant matches Some(PayloadVariantOf::Decoded(_)))
                ==> r.payload_variant == reply.payload_variant
            &&& (MeshPacketOf {
                to: reply.to,
                channel: reply.channel,
                want_ack: reply.want_ack,
                payload_variant: reply.payload_variant,
                ..r
            }) == reply
        }),
{
}

/// Whether a packet gets as far as the module at position `i`: no module before it that
/// sees the packet stops it.
pub open spec fn gets_to(
    d: &ModuleDispatcher,
    p: MeshPacketView,
    ctx: ContextView,
    answers: Seq<Answer>,
    i: int,
) -> bool {
    forall|j: int|
        0 <= j < i && #[trigger] d.sees(j, p, ctx) ==> answers[j].decision == ProcessMessage::Continue
}

/// What becomes of a packet. It is stopped by the first module that sees it and says so,
/// and by no other; it was seen if any module sees it; and the reply is that of the first
/// module that the packet gets to and that has one, addressed to the sender, if the
/// packet asks for a reply, and none otherwise.
pub proof fn lemma_outcome(
    d: &ModuleDispatcher,
    p: MeshPacketView,
    ctx: ContextView,
    answers: Seq<Answer>,
    n: nat,
)
    requires
        n <= usize::MAX,
    ensures
        ({
            let o = outcome_of(d, p, ctx, answers, n);
            &&& o.stopped_by is None <==> gets_to(d, p, ctx, answers, n as int)
            &&& o.stopped_by matches Some(k) ==> k < n && d.sees(k as int, p, ctx)
                && answers[k as int].decision == ProcessMessage::Stop && gets_to(
                d,
                p,
                ctx,
                answers,
                k as int,
            )
            &&& o.module_found <==> exists|j: int| 0 <= j < n && #[trigger] d.sees(j, p, ctx)
            &&& !asks_reply(p, ctx.our_node_num) ==> o.reply is None
            &&& o.reply matches Some(r) ==> exists|k: int|
                0 <= k < n && #[trigger] d.sees(k, p, ctx) && gets_to(d, p, ctx, answers, k)
                    && answers[k].reply is Some && r == addressed(
                    answers[k].reply->0,
                    p,
                    ctx.our_node_num,
                ) && forall|j: int|
                    0 <= j < k && #[trigger] d.sees(j, p, ctx) ==> answers[j].reply is None
            &&& asks_reply(p, ctx.our_node_num) && o.reply is None ==> forall|j: int|
                0 <= j < n && #[trigger] d.sees(j, p, ctx) && gets_to(d, p, ctx, answers, j)
                    ==> answers[j].reply is None
        }),
    decreases n,
{
    if n > 0 {
        let m = (n - 1) as nat;
        lemma_outcome(d, p, ctx, answers, m);
        let before = outcome_of(d, p, ctx, answers, m);
        let o = outcome_of(d, p, ctx, answers, n);
        if before.stopped_by is None && d.sees(m as int, p, ctx) {
            assert(gets_to(d, p, ctx, answers, m as int));
            if answers[m as int].decision == ProcessMessage::Stop {
                assert(!gets_to(d, p, ctx, answers, n as int));
            } else {
                assert(gets_to(d, p, ctx, answers, n as int));
            }
            if before.reply is None && asks_reply(p, ctx.our_node_num)
                && answers[m as int].reply is Some {
                assert forall|j: int|
                    0 <= j < m && #[trigger] d.sees(j, p, ctx) implies answers[j].reply is None by {
                    assert(gets_to(d, p, ctx, answers, j));
                }
                assert(d.sees(m as int, p, ctx));
            }
        } else if before.stopped_by is Some {
            let k = before.stopped_by->0;
            assert(d.sees(k as int, p, ctx));
            assert(!gets_to(d, p, ctx, answers, n as int));
            assert(!gets_to(d, p, ctx, answers, m as int));
            assert(o == before);
            if d.sees(m as int, p, ctx) {
                assert(d.sees(k as int, p, ctx) && 0 <= k < n);
            }
        } else {
            assert(gets_to(d, p, ctx, answers, n as int));
        }
    }
}

/// Which calls a module gets for a packet. It is handed the packet, as it is, exactly if
/// it sees it and the packet gets to it, and then once. It is asked for a reply exactly if
/// it is handed the packet, the packet asks for a reply, and no module before it had one;
/// and then once, after it was handed the packet.
pub proof fn lemma_new_calls(
    d: &ModuleDispatcher,
    p: MeshPacketView,
    ctx: ContextView,
    answers: Seq<Answer>,
    i: int,
)
    requires
        0 <= i <= usize::MAX,
    ensures
        ({
            let calls = d.new_calls(i, p, ctx, answers);
            let handed = d.sees(i, p, ctx) && gets_to(d, p, ctx, answers, i);
            let asked = handed && asks_reply(p, ctx.our_node_num) && forall|j: int|
                0 <= j < i && #[trigger] d.sees(j, p, ctx) ==> answers[j].reply is None;
            &&& calls.len() == (if asked {
                2nat
            } else if handed {
                1
            } else {
                0
            })
            &&& handed ==> calls[0] == (Call::Handled {
                packet: p,
                ctx,
                decision: answers[i].decision,
            })
            &&& asked ==> calls[1] == (Call::Asked { request: p, reply: answers[i].reply })
        }),
{
    lemma_outcome(d, p, ctx, answers, i as nat);
    let o = outcome_of(d, p, ctx, answers, i as nat);
    if gets_to(d, p, ctx, answers, i) {
        assert forall|j: int| 0 <= j < i && #[trigger] d.sees(j, p, ctx) implies gets_to(
            d,
            p,
            ctx,
            answers,
            j,
        ) by {}
        if let Some(r) = o.reply {
            let k = choose|k: int|
                0 <= k < i && #[trigger] d.sees(k, p, ctx) && gets_to(d, p, ctx, answers, k)
                    && answers[k].reply is Some && r == addressed(
                    answers[k].reply->0,
                    p,
                    ctx.our_node_num,
                ) && forall|j: int|
                    0 <= j < k && #[trigger] d.sees(j, p, ctx) ==> answers[j].reply is None;
            assert(d.sees(k, p, ctx));
        }
    }
}

/// What the answer of one module adds to an outcome: the packet was seen; a module that
/// says stop stops it, and one that does not changes nothing in that; and its reply counts,
/// addressed to the sender, only where there was none and the packet asks for one.
pub proof fn lemma_recorded(
    o: DispatchOutcomeOf<MeshPacketView>,
    i: usize,
    answer: Answer,
    request: MeshPacketView,
    our_node_num: NodeNum,
)
    ensures
        ({
            let r = recorded(o, i, answer, request, our_node_num);
            &&& r.module_found
            &&& answer.decision == ProcessMessage::Stop ==> r.stopped_by == Some(i)
            &&& answer.decision == ProcessMessage::Continue ==> r.stopped_by == o.stopped_by
            &&& o.reply is Some || !asks_reply(request, our_node_num) ==> r.reply == o.reply
            &&& o.reply is None && asks_reply(request, our_node_num) ==> (answer.reply is None
                <==> r.reply is None)
            &&& o.reply is None && asks_reply(request, our_node_num) ==> (answer.reply matches Some(
                a,
            ) ==> r.reply == Some(addressed(a, request, our_node_num)))
        }),
{
}

} // verus!
