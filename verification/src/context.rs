//! Precomputed per-trace context shared by all checks: each message's
//! classification, the `2025-11-25` session lifecycle phase before each event,
//! and the request each response answers.

use vstd::prelude::*;
use crate::json::{Json, json_text};
use crate::message::{MessageKind, Tag, classify, classifies, spec_tag, opt};
use crate::text::text_eq;
use crate::trace::{Direction, TraceEvent};
use crate::pairing::{pair_responses, pairing_after};

pub mod draft;

verus! {

/// The `2025-11-25` session lifecycle phase *before* a given event is processed.
#[derive(Clone, Copy, Debug, PartialEq, Eq, Structural)]
pub enum Phase {
    /// No `initialize` request has been observed yet.
    BeforeInitialize,
    /// `initialize` was sent; the server has not yet responded to it.
    AwaitingInitializeResult,
    /// The server answered `initialize` with a result; `notifications/initialized`
    /// has not yet been observed.
    AfterInitializeSuccess,
    /// The server answered `initialize` with an error; the session never became ready.
    AfterInitializeError,
    /// `notifications/initialized` has been observed; normal operation.
    Ready,
}

/// Whether two JSON values have the same compact text, the identity the
/// validator gives request ids.
pub open spec fn same_value(a: Json, b: Json) -> bool {
    json_text(a) == json_text(b)
}

/// Whether two JSON values have the same compact text.
pub fn same_json(a: &Json, b: &Json) -> (r: bool)
    ensures
        r == same_value(*a, *b),
{
    let x = a.to_text();
    let y = b.to_text();
    text_eq(x.as_str(), y.as_str())
}

/// The observed `initialize` exchange, when present.
pub struct InitializeExchange<'a> {
    /// The `initialize` request: its event `seq` and `params` value (if any).
    pub request: Option<(u64, Option<&'a Json>)>,
    /// The successful `initialize` result: its event `seq` and `result` value.
    pub result: Option<(u64, &'a Json)>,
    /// The `seq` of the `notifications/initialized` notification.
    pub initialized: Option<u64>,
}

/// The `initialize` exchange as plain values.
pub struct InitRecord {
    pub request: Option<(u64, Option<Json>)>,
    pub result: Option<(u64, Json)>,
    pub initialized: Option<u64>,
}

impl<'a> InitializeExchange<'a> {
    pub open spec fn record(self) -> InitRecord {
        InitRecord {
            request: match self.request {
                Some((s, p)) => Some((s, opt(p))),
                None => None,
            },
            result: match self.result {
                Some((s, r)) => Some((s, *r)),
                None => None,
            },
            initialized: self.initialized,
        }
    }
}

/// The lifecycle state machine's state: the phase, what was observed of the
/// handshake, and the id the `initialize` request used.
pub struct LifeState {
    pub phase: Phase,
    pub init: InitRecord,
    pub initialize_id: Option<Json>,
}

/// The state before any event.
pub open spec fn life_start() -> LifeState {
    LifeState {
        phase: Phase::BeforeInitialize,
        init: InitRecord { request: None, result: None, initialized: None },
        initialize_id: None,
    }
}

/// Whether `p`'s `id` is present and names the same value as `id`.
pub open spec fn answers_id(p: Json, id: Option<Json>) -> bool {
    &&& p.at("id"@) is Some
    &&& id is Some
    &&& same_value(p.at("id"@).unwrap(), id.unwrap())
}

/// One step of the `2025-11-25` lifecycle: `initialize` from the client opens
/// the handshake, the server's result or error for that id closes it, and
/// `notifications/initialized` from the client after a result makes the session
/// ready. Every other message, and every non-message event, leaves the state as
/// it is.
#[verifier::opaque]
pub open spec fn life_step(s: LifeState, e: TraceEvent) -> LifeState {
    match e.payload() {
        None => s,
        Some(p) => {
            let tag = spec_tag(p);
            let method = if p.at("method"@) is Some { p.at("method"@).unwrap().text() } else { None };
            if s.phase == Phase::BeforeInitialize && e.direction == Direction::ClientToServer
                && tag == Tag::Request && method == Some("initialize"@) {
                LifeState {
                    phase: Phase::AwaitingInitializeResult,
                    init: InitRecord { request: Some((e.seq, p.at("params"@))), ..s.init },
                    initialize_id: p.at("id"@),
                }
            } else if s.phase == Phase::AwaitingInitializeResult
                && e.direction == Direction::ServerToClient && tag == Tag::Result
                && answers_id(p, s.initialize_id) {
                LifeState {
                    phase: Phase::AfterInitializeSuccess,
                    init: InitRecord { result: Some((e.seq, p.at("result"@).unwrap())), ..s.init },
                    ..s
                }
            } else if s.phase == Phase::AwaitingInitializeResult
                && e.direction == Direction::ServerToClient && tag == Tag::Error
                && answers_id(p, s.initialize_id) {
                LifeState { phase: Phase::AfterInitializeError, ..s }
            } else if s.phase == Phase::AfterInitializeSuccess
                && e.direction == Direction::ClientToServer && tag == Tag::Notification
                && method == Some("notifications/initialized"@) {
                LifeState {
                    phase: Phase::Ready,
                    init: InitRecord { initialized: Some(e.seq), ..s.init },
                    ..s
                }
            } else {
                s
            }
        },
    }
}

/// The lifecycle state after `events`.
pub open spec fn life_after(events: Seq<TraceEvent>) -> LifeState
    decreases events.len(),
{
    if events.len() == 0 {
        life_start()
    } else {
        life_step(life_after(events.drop_last()), events.last())
    }
}

/// A client `notifications/initialized` notification.
pub open spec fn is_initialized_note(e: TraceEvent) -> bool {
    &&& e.direction == Direction::ClientToServer
    &&& e.payload() matches Some(p) && spec_tag(p) == Tag::Notification
        && p.at("method"@).unwrap().text() == Some("notifications/initialized"@)
}

/// The session becomes ready only through a client
/// `notifications/initialized`: a trace whose lifecycle is ready holds one.
pub proof fn lemma_ready_needs_initialized(events: Seq<TraceEvent>)
    ensures
        life_after(events).phase == Phase::Ready
            ==> exists|k: int| 0 <= k < events.len() && is_initialized_note(#[trigger] events[k]),
    decreases events.len(),
{
    if events.len() > 0 {
        let prefix = events.drop_last();
        lemma_ready_needs_initialized(prefix);
        reveal(life_step);
        if life_after(events).phase == Phase::Ready {
            if life_after(prefix).phase == Phase::Ready {
                let k = choose|k: int| 0 <= k < prefix.len() && is_initialized_note(#[trigger] prefix[k]);
                assert(events[k] == prefix[k]);
            } else {
                assert(is_initialized_note(events[events.len() - 1]));
            }
        }
    }
}

/// Whether the lifecycle may move from `from` to `to` in one event.
pub open spec fn edge_is_legal(from: Phase, to: Phase) -> bool {
    match (from, to) {
        (Phase::BeforeInitialize, Phase::BeforeInitialize) => true,
        (Phase::BeforeInitialize, Phase::AwaitingInitializeResult) => true,
        (Phase::AwaitingInitializeResult, Phase::AwaitingInitializeResult) => true,
        (Phase::AwaitingInitializeResult, Phase::AfterInitializeSuccess) => true,
        (Phase::AwaitingInitializeResult, Phase::AfterInitializeError) => true,
        (Phase::AfterInitializeSuccess, Phase::AfterInitializeSuccess) => true,
        (Phase::AfterInitializeSuccess, Phase::Ready) => true,
        (Phase::AfterInitializeError, Phase::AfterInitializeError) => true,
        (Phase::Ready, Phase::Ready) => true,
        _ => false,
    }
}

/// What the handshake record holds in each phase: nothing before
/// `initialize`; the request while awaiting its answer and after an error; the
/// request and the result after a success; all three once ready.
pub open spec fn life_consistent(s: LifeState) -> bool {
    match s.phase {
        Phase::BeforeInitialize =>
            s.init.request is None && s.init.result is None && s.init.initialized is None,
        Phase::AwaitingInitializeResult =>
            s.init.request is Some && s.init.result is None && s.init.initialized is None,
        Phase::AfterInitializeSuccess =>
            s.init.request is Some && s.init.result is Some && s.init.initialized is None,
        Phase::AfterInitializeError =>
            s.init.request is Some && s.init.result is None && s.init.initialized is None,
        Phase::Ready =>
            s.init.request is Some && s.init.result is Some && s.init.initialized is Some,
    }
}

proof fn lemma_step_laws(s: LifeState, e: TraceEvent)
    requires
        life_consistent(s),
    ensures
        life_consistent(life_step(s, e)),
        edge_is_legal(s.phase, life_step(s, e).phase),
{
    reveal(life_step);
}

/// The handshake record is always consistent with the phase.
pub proof fn lemma_life_consistent(events: Seq<TraceEvent>)
    ensures
        life_consistent(life_after(events)),
    decreases events.len(),
{
    if events.len() > 0 {
        lemma_life_consistent(events.drop_last());
        lemma_step_laws(life_after(events.drop_last()), events.last());
    }
}

/// The state after the first `i + 1` events is one step from the state after
/// the first `i`.
pub proof fn lemma_life_after_take(events: Seq<TraceEvent>, i: int)
    requires
        0 <= i < events.len(),
    ensures
        life_after(events.take(i + 1)) == life_step(life_after(events.take(i)), events[i]),
{
    assert(events.take(i + 1).drop_last() =~= events.take(i));
    assert(events.take(i + 1).last() == events[i]);
}

/// Every event moves the lifecycle along a legal edge, and the handshake record
/// stays consistent with the phase: a result or `initialized` implies a request,
/// `initialized` implies a result and the ready phase, and the ready phase
/// implies `initialized`.
pub proof fn lemma_lifecycle_laws(events: Seq<TraceEvent>)
    ensures
        life_consistent(life_after(events)),
        forall|i: int| 0 <= i < events.len() ==>
            edge_is_legal(#[trigger] life_after(events.take(i)).phase, life_after(events.take(i + 1)).phase),
{
    lemma_life_consistent(events);
    assert forall|i: int| 0 <= i < events.len() implies
        edge_is_legal(#[trigger] life_after(events.take(i)).phase, life_after(events.take(i + 1)).phase)
    by {
        lemma_life_consistent(events.take(i));
        lemma_life_after_take(events, i);
        lemma_step_laws(life_after(events.take(i)), events[i]);
    }
}

/// The lifecycle state machine, folded over message events in order.
struct LifecycleTracker<'a> {
    phase: Phase,
    init: InitializeExchange<'a>,
    initialize_id: Option<&'a Json>,
}

impl<'a> LifecycleTracker<'a> {
    spec fn state(self) -> LifeState {
        LifeState { phase: self.phase, init: self.init.record(), initialize_id: opt(self.initialize_id) }
    }

    fn start() -> (t: Self)
        ensures
            t.state() == life_start(),
    {
        LifecycleTracker {
            phase: Phase::BeforeInitialize,
            init: InitializeExchange { request: None, result: None, initialized: None },
            initialize_id: None,
        }
    }

    fn step(&mut self, event: &'a TraceEvent, kind: &MessageKind<'a>)
        requires
            event.payload() matches Some(p) && classifies(p, *kind),
        ensures
            final(self).state() == life_step(old(self).state(), *event),
    {
        proof {
            reveal(life_step);
            reveal_strlit("initialize");
            reveal_strlit("notifications/initialized");
        }
        let payload = match event.message_payload() {
            Some(p) => p,
            None => { return; },
        };
        match kind {
            MessageKind::Request { method, id } => {
                if self.phase == Phase::BeforeInitialize && event.direction == Direction::ClientToServer
                    && text_eq(method, "initialize") {
                    self.initialize_id = Some(*id);
                    self.init.request = Some((event.seq, payload.get("params")));
                    self.phase = Phase::AwaitingInitializeResult;
                }
            },
            MessageKind::Result { id: Some(id) } => {
                if self.phase == Phase::AwaitingInitializeResult && event.direction == Direction::ServerToClient {
                    if let Some(expected) = self.initialize_id {
                        if same_json(id, expected) {
                            if let Some(result) = payload.get("result") {
                                self.init.result = Some((event.seq, result));
                            }
                            self.phase = Phase::AfterInitializeSuccess;
                        }
                    }
                }
            },
            MessageKind::Error { id: Some(id), .. } => {
                if self.phase == Phase::AwaitingInitializeResult && event.direction == Direction::ServerToClient {
                    if let Some(expected) = self.initialize_id {
                        if same_json(id, expected) {
                            self.phase = Phase::AfterInitializeError;
                        }
                    }
                }
            },
            MessageKind::Notification { method } => {
                if self.phase == Phase::AfterInitializeSuccess && event.direction == Direction::ClientToServer
                    && text_eq(method, "notifications/initialized") {
                    self.init.initialized = Some(event.seq);
                    self.phase = Phase::Ready;
                }
            },
            _ => {},
        }
    }
}

/// Whether `kinds` holds each event's classification, `None` exactly for the
/// events that are not messages.
pub open spec fn kinds_match<'a>(events: Seq<TraceEvent>, kinds: Seq<Option<MessageKind<'a>>>) -> bool {
    &&& kinds.len() == events.len()
    &&& forall|i: int| 0 <= i < events.len() ==> match #[trigger] kinds[i] {
        Some(k) => events[i].payload() matches Some(p) && classifies(p, k),
        None => events[i].payload() is None,
    }
}

/// The positions of the message events of `events`, in order.
pub open spec fn message_ixs(events: Seq<TraceEvent>) -> Seq<int>
    decreases events.len(),
{
    if events.len() == 0 {
        Seq::empty()
    } else if events.last().payload() is Some {
        message_ixs(events.drop_last()).push(events.len() - 1)
    } else {
        message_ixs(events.drop_last())
    }
}

/// One more event extends the message positions by it exactly when it is a
/// message.
pub proof fn lemma_message_ixs_take(events: Seq<TraceEvent>, i: int)
    requires
        0 <= i < events.len(),
    ensures
        message_ixs(events.take(i + 1)) == if events[i].payload() is Some {
            message_ixs(events.take(i)).push(i)
        } else {
            message_ixs(events.take(i))
        },
{
    assert(events.take(i + 1).drop_last() =~= events.take(i));
    assert(events.take(i + 1).last() == events[i]);
}

/// Everything checks need, precomputed once per trace.
pub struct TraceContext<'a> {
    events: &'a [TraceEvent],
    kinds: Vec<Option<MessageKind<'a>>>,
    phases: Vec<Phase>,
    pairs: Vec<Option<usize>>,
    init: InitializeExchange<'a>,
    final_phase: Phase,
}

impl<'a> TraceContext<'a> {
    /// The events.
    pub closed spec fn trace(self) -> Seq<TraceEvent> {
        self.events@
    }

    /// The classification of each event.
    pub closed spec fn kinds(self) -> Seq<Option<MessageKind<'a>>> {
        self.kinds@
    }

    /// The request each event answers.
    pub closed spec fn pairs(self) -> Seq<Option<usize>> {
        self.pairs@
    }

    #[verifier::type_invariant]
    closed spec fn wf(self) -> bool {
        &&& kinds_match(self.events@, self.kinds@)
        &&& self.phases@.len() == self.events@.len()
        &&& forall|i: int| 0 <= i < self.events@.len() ==>
                #[trigger] self.phases@[i] == life_after(self.events@.take(i)).phase
        &&& self.init.record() == life_after(self.events@).init
        &&& self.final_phase == life_after(self.events@).phase
        &&& self.pairs@ == pairing_after(self.events@, self.events@.len() as nat).1
    }

    /// Builds the context in one pass over the events.
    pub fn new(events: &'a [TraceEvent]) -> (c: Self)
        ensures
            c.trace() == events@,
            c.pairs() == pairing_after(events@, events@.len() as nat).1,
    {
        let mut kinds: Vec<Option<MessageKind<'a>>> = Vec::new();
        let mut phases: Vec<Phase> = Vec::new();
        let mut tracker = LifecycleTracker::start();
        let mut i: usize = 0;
        while i < events.len()
            invariant
                i <= events@.len(),
                kinds_match(events@.take(i as int), kinds@),
                phases@.len() == i,
                forall|j: int| 0 <= j < i ==> #[trigger] phases@[j] == life_after(events@.take(j)).phase,
                tracker.state() == life_after(events@.take(i as int)),
            decreases events@.len() - i,
        {
            let event = &events[i];
            phases.push(tracker.phase);
            proof { crate::context::lemma_life_after_take(events@, i as int); }
            match event.message_payload() {
                Some(payload) => {
                    let kind = classify(payload);
                    tracker.step(event, &kind);
                    kinds.push(Some(kind));
                },
                None => {
                    proof { reveal(life_step); }
                    kinds.push(None);
                },
            }
            i = i + 1;
            assert(kinds_match(events@.take(i as int), kinds@));
        }
        assert(events@.take(events@.len() as int) =~= events@);
        let pairs = pair_responses(events, &kinds);
        TraceContext {
            events,
            kinds,
            phases,
            pairs,
            init: tracker.init,
            final_phase: tracker.phase,
        }
    }

    /// The number of events.
    pub fn len(&self) -> (n: usize)
        ensures
            n == self.trace().len(),
    {
        self.events.len()
    }

    /// The underlying events.
    pub fn events(&self) -> (e: &'a [TraceEvent])
        ensures
            e@ == self.trace(),
    {
        self.events
    }

    /// The event at `i`.
    pub fn event(&self, i: usize) -> (e: &'a TraceEvent)
        requires
            i < self.trace().len(),
        ensures
            *e == self.trace()[i as int],
    {
        &self.events[i]
    }

    /// The classification of the event at `i`: `None` when it is not a message.
    pub fn kind(&self, i: usize) -> (k: &Option<MessageKind<'a>>)
        requires
            i < self.trace().len(),
        ensures
            match *k {
                Some(k) => self.trace()[i as int].payload() matches Some(p) && classifies(p, k),
                None => self.trace()[i as int].payload() is None,
            },
    {
        proof { use_type_invariant(self); }
        &self.kinds[i]
    }

    /// The lifecycle phase before the event at `i`.
    pub fn phase(&self, i: usize) -> (p: Phase)
        requires
            i < self.trace().len(),
        ensures
            p == life_after(self.trace().take(i as int)).phase,
    {
        proof { use_type_invariant(self); }
        self.phases[i]
    }

    /// The observed `initialize` exchange.
    pub fn initialize(&self) -> (x: &InitializeExchange<'a>)
        ensures
            x.record() == life_after(self.trace()).init,
    {
        proof { use_type_invariant(self); }
        &self.init
    }

    /// The lifecycle phase after the entire trace has been processed.
    pub fn final_phase(&self) -> (p: Phase)
        ensures
            p == life_after(self.trace()).phase,
    {
        proof { use_type_invariant(self); }
        self.final_phase
    }

    /// The `(event, classification, phase-before-event)` triples of the
    /// message events, in trace order.
    pub fn messages<'b>(&'b self) -> (r: Vec<(&'a TraceEvent, &'b MessageKind<'a>, Phase)>)
        ensures
            r@.len() == message_ixs(self.trace()).len(),
            forall|k: int| 0 <= k < r@.len() ==> {
                let i = #[trigger] message_ixs(self.trace())[k];
                &&& *r@[k].0 == self.trace()[i]
                &&& self.trace()[i].payload() matches Some(p) && classifies(p, *r@[k].1)
                &&& r@[k].2 == life_after(self.trace().take(i)).phase
            },
    {
        proof { use_type_invariant(self); }
        let mut out: Vec<(&'a TraceEvent, &'b MessageKind<'a>, Phase)> = Vec::new();
        let mut i: usize = 0;
        while i < self.events.len()
            invariant
                i <= self.events@.len(),
                kinds_match(self.events@, self.kinds@),
                self.phases@.len() == self.events@.len(),
                forall|j: int| 0 <= j < self.events@.len() ==>
                    #[trigger] self.phases@[j] == life_after(self.events@.take(j)).phase,
                out@.len() == message_ixs(self.events@.take(i as int)).len(),
                forall|k: int| 0 <= k < out@.len() ==> {
                    let j = #[trigger] message_ixs(self.events@.take(i as int))[k];
                    &&& 0 <= j < i
                    &&& *out@[k].0 == self.events@[j]
                    &&& self.events@[j].payload() matches Some(p) && classifies(p, *out@[k].1)
                    &&& out@[k].2 == life_after(self.events@.take(j)).phase
                },
            decreases self.events@.len() - i,
        {
            proof {
                lemma_message_ixs_take(self.events@, i as int);
            }
            if let Some(kind) = &self.kinds[i] {
                out.push((&self.events[i], kind, self.phases[i]));
            }
            i = i + 1;
        }
        assert(self.events@.take(self.events@.len() as int) =~= self.events@);
        out
    }

    /// The request event each event answers, by index.
    pub fn paired(&self, i: usize) -> (r: Option<usize>)
        requires
            i < self.trace().len(),
        ensures
            r == pairing_after(self.trace(), self.trace().len() as nat).1[i as int],
            r == self.pairs()[i as int],
            r matches Some(k) ==> k < i && crate::pairing::request_id(self.trace()[k as int]) is Some
                && crate::pairing::response_id(self.trace()[i as int]) is Some,
    {
        let _count = self.events.len();
        proof {
            use_type_invariant(self);
            crate::pairing::lemma_pairing_len(self.events@, self.events@.len() as nat);
            crate::pairing::lemma_pairing_laws(self.events@, self.events@.len() as nat);
        }
        self.pairs[i]
    }

    /// The server's declared capabilities, from the `initialize` result.
    pub fn server_capabilities(&self) -> (c: Option<&'a Json>)
        ensures
            c matches Some(v) ==> life_after(self.trace()).init.result matches Some((_, r)) && r.at("capabilities"@) == Some(*v),
            c is None ==> !(life_after(self.trace()).init.result matches Some((_, r)) && r.at("capabilities"@) is Some),
    {
        proof { use_type_invariant(self); }
        match self.init.result {
            Some((_, result)) => result.get("capabilities"),
            None => None,
        }
    }

    /// The client's declared capabilities, from the `initialize` request params.
    pub fn client_capabilities(&self) -> (c: Option<&'a Json>)
        ensures
            c matches Some(v) ==> life_after(self.trace()).init.request matches Some((_, Some(p))) && p.at("capabilities"@) == Some(*v),
            c is None ==> !(life_after(self.trace()).init.request matches Some((_, Some(p))) && p.at("capabilities"@) is Some),
    {
        proof { use_type_invariant(self); }
        match self.init.request {
            Some((_, Some(params))) => params.get("capabilities"),
            _ => None,
        }
    }
}

/// The view of an optional text.
pub open spec fn opt_text(t: Option<&str>) -> Option<Seq<char>> {
    match t {
        Some(s) => Some(s@),
        None => None,
    }
}

/// Whether `xs` are the exchanges at index pairs `ixs` of `events`: request and
/// response events, the request's method, `params` and the response's `result`.
pub open spec fn exchanges_are<'a>(xs: Seq<Exchange<'a>>, events: Seq<TraceEvent>, ixs: Seq<(int, int)>) -> bool {
    &&& xs.len() == ixs.len()
    &&& forall|k: int| 0 <= k < ixs.len() ==> {
        &&& 0 <= ixs[k].0 < ixs[k].1 < events.len()
        &&& *#[trigger] xs[k].request == events[ixs[k].0]
        &&& *xs[k].response == events[ixs[k].1]
        &&& events[ixs[k].0].payload() is Some
        &&& events[ixs[k].1].payload() is Some
        &&& xs[k].method@ == events[ixs[k].0].payload().unwrap().at("method"@).unwrap().text().unwrap()
        &&& opt(xs[k].params) == events[ixs[k].0].payload().unwrap().at("params"@)
        &&& opt(xs[k].result) == events[ixs[k].1].payload().unwrap().at("result"@)
    }
}

/// A request paired with the response that answered it.
pub struct Exchange<'a> {
    /// The request event.
    pub request: &'a TraceEvent,
    /// The request's method.
    pub method: &'a str,
    /// The request's `params`, when present.
    pub params: Option<&'a Json>,
    /// The response event (a result or an error).
    pub response: &'a TraceEvent,
    /// The response's `result`, when it is a success.
    pub result: Option<&'a Json>,
}

/// The (request, response) index pairs of the first `n` events whose request
/// names `method` (any method when `method` is `None`), in response order.
pub open spec fn exchange_ixs(events: Seq<TraceEvent>, pairs: Seq<Option<usize>>, method: Option<Seq<char>>, n: nat)
    -> Seq<(int, int)>
    decreases n,
{
    if n == 0 {
        Seq::empty()
    } else {
        let prev = exchange_ixs(events, pairs, method, (n - 1) as nat);
        let j = n - 1;
        match pairs[j] {
            Some(r) => if crate::pairing::request_id(events[r as int]) is Some
                && (method is None || events[r as int].payload().unwrap().at("method"@).unwrap().text() == method) {
                prev.push((r as int, j))
            } else {
                prev
            },
            None => prev,
        }
    }
}

impl<'a> TraceContext<'a> {
    /// Every exchange, in response order.
    pub fn exchanges(&self) -> (r: Vec<Exchange<'a>>)
        ensures
            exchanges_are(r@, self.trace(), exchange_ixs(self.trace(), self.pairs(), None, self.trace().len() as nat)),
    {
        self.select_exchanges(None)
    }

    /// The exchanges whose request names `method`, in response order.
    pub fn exchanges_for(&self, method: &str) -> (r: Vec<Exchange<'a>>)
        ensures
            exchanges_are(r@, self.trace(), exchange_ixs(self.trace(), self.pairs(), Some(method@), self.trace().len() as nat)),
            forall|k: int| 0 <= k < r@.len() ==> #[trigger] r@[k].method@ == method@,
    {
        self.select_exchanges(Some(method))
    }

    /// The exchanges whose request names `method` (every exchange for `None`).
    fn select_exchanges(&self, method: Option<&str>) -> (r: Vec<Exchange<'a>>)
        ensures
            exchanges_are(r@, self.trace(), exchange_ixs(self.trace(), self.pairs(), opt_text(method), self.trace().len() as nat)),
            method matches Some(m) ==> forall|k: int| 0 <= k < r@.len() ==> #[trigger] r@[k].method@ == m@,
    {
        let _count = self.events.len();
        proof {
            use_type_invariant(self);
            crate::pairing::lemma_pairing_len(self.events@, self.events@.len() as nat);
            crate::pairing::lemma_pairing_laws(self.events@, self.events@.len() as nat);
        }
        let ghost events = self.events@;
        let ghost pairs = self.pairs@;
        let mut out: Vec<Exchange<'a>> = Vec::new();
        let mut j: usize = 0;
        while j < self.pairs.len()
            invariant
                j <= pairs.len(),
                pairs == self.pairs@,
                events == self.events@,
                pairs.len() == events.len(),
                kinds_match(events, self.kinds@),
                forall|i: int| 0 <= i < events.len() ==> (#[trigger] pairs[i] matches Some(r) ==>
                    r < i && crate::pairing::request_id(events[r as int]) is Some
                    && crate::pairing::response_id(events[i]) is Some),
                exchanges_are(out@, events, exchange_ixs(events, pairs, opt_text(method), j as nat)),
                method matches Some(m) ==> forall|k: int| 0 <= k < out@.len() ==> #[trigger] out@[k].method@ == m@,
            decreases pairs.len() - j,
        {
            proof {
                assert(exchange_ixs(events, pairs, opt_text(method), (j + 1) as nat) == {
                    let prev = exchange_ixs(events, pairs, opt_text(method), j as nat);
                    match pairs[j as int] {
                        Some(r) => if crate::pairing::request_id(events[r as int]) is Some
                            && (opt_text(method) is None || events[r as int].payload().unwrap().at("method"@).unwrap().text() == opt_text(method)) {
                            prev.push((r as int, j as int))
                        } else {
                            prev
                        },
                        None => prev,
                    }
                });
            }
            if let Some(r) = self.pairs[j] {
                let request = &self.events[r];
                if let Some(MessageKind::Request { method: m, .. }) = &self.kinds[r] {
                    let wanted = match method {
                        Some(want) => text_eq(m, want),
                        None => true,
                    };
                    if wanted {
                        let response = &self.events[j];
                        let params = match request.message_payload() {
                            Some(p) => p.get("params"),
                            None => None,
                        };
                        let result = match response.message_payload() {
                            Some(p) => p.get("result"),
                            None => None,
                        };
                        let ghost before = out@;
                        out.push(Exchange { request, method: *m, params, response, result });
                        proof {
                            let ixs = exchange_ixs(events, pairs, opt_text(method), (j + 1) as nat);
                            assert(ixs.last() == (r as int, j as int));
                            assert(ixs.drop_last() == exchange_ixs(events, pairs, opt_text(method), j as nat));
                            assert forall|k: int| 0 <= k < ixs.len() implies {
                                &&& 0 <= ixs[k].0 < ixs[k].1 < events.len()
                                &&& *#[trigger] out@[k].request == events[ixs[k].0]
                                &&& *out@[k].response == events[ixs[k].1]
                                &&& events[ixs[k].0].payload() is Some
                                &&& events[ixs[k].1].payload() is Some
                                &&& out@[k].method@ == events[ixs[k].0].payload().unwrap().at("method"@).unwrap().text().unwrap()
                                &&& opt(out@[k].params) == events[ixs[k].0].payload().unwrap().at("params"@)
                                &&& opt(out@[k].result) == events[ixs[k].1].payload().unwrap().at("result"@)
                            } by {
                                if k < before.len() {
                                    assert(out@[k] == before[k]);
                                    assert(ixs[k] == ixs.drop_last()[k]);
                                }
                            }
                            if let Some(m) = method {
                                assert forall|k: int| 0 <= k < out@.len() implies #[trigger] out@[k].method@ == m@ by {
                                    if k < before.len() {
                                        assert(out@[k] == before[k]);
                                    }
                                }
                            }
                        }
                    }
                }
            }
            j = j + 1;
        }
        out
    }
}

} // verus!
