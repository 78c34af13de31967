//! The stateless `2026-07-28` lifecycle.
//!
//! The `2026-07-28` revision removes the `initialize`/`initialized` handshake:
//! a session is operational from its first message, and the one
//! handshake-like exchange that remains is the optional `server/discover`
//! probe. This module models that lifecycle as a second state machine beside
//! the `2025-11-25` one.

use vstd::prelude::*;
use crate::context::{same_json, same_value};
use crate::json::Json;
use crate::message::{MessageKind, Tag, classify, classifies, spec_tag, opt};
use crate::text::text_eq;
use crate::trace::{Direction, TraceEvent};

verus! {

/// The stateless lifecycle phase *before* a given event is processed.
#[derive(Clone, Copy, Debug, PartialEq, Eq, Structural)]
pub enum DraftPhase {
    /// Operational: requests may flow immediately.
    Active,
    /// A `server/discover` request is in flight; its response has not yet been
    /// observed.
    AwaitingDiscoverResult,
}

/// The observed `server/discover` exchange, when present. A session is valid
/// with no discovery at all.
pub struct DiscoverExchange<'a> {
    /// The `server/discover` request: its event `seq` and `params` value (if any).
    pub request: Option<(u64, Option<&'a Json>)>,
    /// The successful `server/discover` result: its event `seq` and `result` value.
    pub result: Option<(u64, &'a Json)>,
    /// The `seq` of an error response to the `server/discover` request.
    pub error: Option<u64>,
}

/// The discovery exchange as plain values.
pub struct DiscoverRecord {
    pub request: Option<(u64, Option<Json>)>,
    pub result: Option<(u64, Json)>,
    pub error: Option<u64>,
}

impl<'a> DiscoverExchange<'a> {
    /// This exchange as plain values.
    pub open spec fn record(self) -> DiscoverRecord {
        DiscoverRecord {
            request: match self.request {
                Some((s, p)) => Some((s, opt(p))),
                None => None,
            },
            result: match self.result {
                Some((s, r)) => Some((s, *r)),
                None => None,
            },
            error: self.error,
        }
    }
}

/// The state machine's state: the phase, the exchange observed so far, and
/// the id the recorded `server/discover` request used.
pub struct DraftState {
    pub phase: DraftPhase,
    pub discover: DiscoverRecord,
    pub discover_id: Option<Json>,
}

/// The state before any event: active, nothing observed.
pub open spec fn draft_start() -> DraftState {
    DraftState {
        phase: DraftPhase::Active,
        discover: DiscoverRecord { request: None, result: None, error: None },
        discover_id: None,
    }
}

/// Whether `p` carries an `id` naming the same value as `id`.
pub open spec fn names_id(p: Json, id: Option<Json>) -> bool {
    &&& p.at("id"@) is Some
    &&& id is Some
    &&& same_value(p.at("id"@).unwrap(), id.unwrap())
}

/// Whether `e` is a client `server/discover` request.
pub open spec fn is_discover_request(e: TraceEvent) -> bool {
    &&& e.direction == Direction::ClientToServer
    &&& e.payload() is Some
    &&& spec_tag(e.payload().unwrap()) == Tag::Request
    &&& e.payload().unwrap().at("method"@).unwrap().text() == Some("server/discover"@)
}

/// One step: discovery is one-shot, so a client `server/discover` request is
/// recorded only while none has been; the server's result or error for that
/// id ends the wait. Everything else leaves the state as it is.
pub open spec fn draft_step(s: DraftState, e: TraceEvent) -> DraftState {
    match e.payload() {
        None => s,
        Some(p) => {
            let tag = spec_tag(p);
            if s.phase == DraftPhase::Active && is_discover_request(e) && s.discover.request is None {
                DraftState {
                    phase: DraftPhase::AwaitingDiscoverResult,
                    discover: DiscoverRecord { request: Some((e.seq, p.at("params"@))), ..s.discover },
                    discover_id: p.at("id"@),
                }
            } else if s.phase == DraftPhase::AwaitingDiscoverResult && e.direction == Direction::ServerToClient
                && tag == Tag::Result && names_id(p, s.discover_id) {
                DraftState {
                    phase: DraftPhase::Active,
                    discover: DiscoverRecord { result: Some((e.seq, p.at("result"@).unwrap())), ..s.discover },
                    ..s
                }
            } else if s.phase == DraftPhase::AwaitingDiscoverResult && e.direction == Direction::ServerToClient
                && tag == Tag::Error && names_id(p, s.discover_id) {
                DraftState {
                    phase: DraftPhase::Active,
                    discover: DiscoverRecord { error: Some(e.seq), ..s.discover },
                    ..s
                }
            } else {
                s
            }
        },
    }
}

/// The state after `events`.
pub open spec fn draft_after(events: Seq<TraceEvent>) -> DraftState
    decreases events.len(),
{
    if events.len() == 0 {
        draft_start()
    } else {
        draft_step(draft_after(events.drop_last()), events.last())
    }
}

/// What the exchange record holds in each phase: the session awaits exactly
/// when a discovery was requested and neither a result nor an error has come
/// back; a result or an error is only ever recorded against a request, and
/// never both.
pub open spec fn draft_consistent(s: DraftState) -> bool {
    &&& (s.phase == DraftPhase::AwaitingDiscoverResult) == (s.discover.request is Some
        && s.discover.result is None && s.discover.error is None)
    &&& (s.discover.result is Some || s.discover.error is Some) ==> s.discover.request is Some
    &&& !(s.discover.result is Some && s.discover.error is Some)
}

proof fn lemma_draft_step(s: DraftState, e: TraceEvent)
    requires
        draft_consistent(s),
    ensures
        draft_consistent(draft_step(s, e)),
        s.phase == DraftPhase::Active && draft_step(s, e).phase == DraftPhase::AwaitingDiscoverResult
            ==> is_discover_request(e),
{
}

/// The exchange record is always consistent with the phase.
pub proof fn lemma_draft_consistent(events: Seq<TraceEvent>)
    ensures
        draft_consistent(draft_after(events)),
    decreases events.len(),
{
    if events.len() > 0 {
        lemma_draft_consistent(events.drop_last());
        lemma_draft_step(draft_after(events.drop_last()), events.last());
    }
}

/// Discovery is one-shot: once a `server/discover` request is recorded, every
/// later event leaves that record as it is.
pub proof fn lemma_discover_request_kept(events: Seq<TraceEvent>, i: int)
    requires
        0 <= i <= events.len(),
        draft_after(events.take(i)).discover.request is Some,
    ensures
        draft_after(events).discover.request == draft_after(events.take(i)).discover.request,
    decreases events.len() - i,
{
    if i < events.len() {
        assert(events.take(i + 1).drop_last() =~= events.take(i));
        assert(events.take(i + 1).last() == events[i]);
        lemma_discover_request_kept(events, i + 1);
    } else {
        assert(events.take(i) =~= events);
    }
}

/// A stateless session is operational from its first event; the session
/// awaits a discovery result exactly when a `server/discover` was requested
/// and neither a result nor an error answered it; a result or an error is
/// recorded only against a request, and never both; and the session starts
/// awaiting only at a client `server/discover` request.
pub proof fn lemma_draft_laws(events: Seq<TraceEvent>)
    ensures
        draft_after(events.take(0)).phase == DraftPhase::Active,
        draft_consistent(draft_after(events)),
        forall|i: int| 0 <= i < events.len()
            && #[trigger] draft_after(events.take(i)).phase == DraftPhase::Active
            && draft_after(events.take(i + 1)).phase == DraftPhase::AwaitingDiscoverResult
            ==> is_discover_request(events[i]),
{
    assert(events.take(0) =~= Seq::<TraceEvent>::empty());
    lemma_draft_consistent(events);
    assert forall|i: int| 0 <= i < events.len()
        && #[trigger] draft_after(events.take(i)).phase == DraftPhase::Active
        && draft_after(events.take(i + 1)).phase == DraftPhase::AwaitingDiscoverResult
        implies is_discover_request(events[i])
    by {
        assert(events.take(i + 1).drop_last() =~= events.take(i));
        assert(events.take(i + 1).last() == events[i]);
        lemma_draft_consistent(events.take(i));
        lemma_draft_step(draft_after(events.take(i)), events[i]);
    }
}

/// The folding state machine.
struct DraftTracker<'a> {
    phase: DraftPhase,
    discover: DiscoverExchange<'a>,
    discover_id: Option<&'a Json>,
}

impl<'a> DraftTracker<'a> {
    spec fn state(self) -> DraftState {
        DraftState { phase: self.phase, discover: self.discover.record(), discover_id: opt(self.discover_id) }
    }

    fn start() -> (t: Self)
        ensures
            t.state() == draft_start(),
    {
        DraftTracker {
            phase: DraftPhase::Active,
            discover: DiscoverExchange { request: None, result: None, error: None },
            discover_id: None,
        }
    }

    fn step(&mut self, event: &'a TraceEvent, kind: &MessageKind<'a>)
        requires
            event.payload() matches Some(p) && classifies(p, *kind),
        ensures
            final(self).state() == draft_step(old(self).state(), *event),
    {
        let payload = match event.message_payload() {
            Some(p) => p,
            None => { return; },
        };
        match kind {
            MessageKind::Request { method, id } => {
                if self.phase == DraftPhase::Active && event.direction == Direction::ClientToServer
                    && text_eq(method, "server/discover") && self.discover.request.is_none() {
                    self.discover_id = Some(*id);
                    self.discover.request = Some((event.seq, payload.get("params")));
                    self.phase = DraftPhase::AwaitingDiscoverResult;
                }
            },
            MessageKind::Result { id: Some(id) } => {
                if self.phase == DraftPhase::AwaitingDiscoverResult && event.direction == Direction::ServerToClient {
                    if let Some(expected) = self.discover_id {
                        if same_json(id, expected) {
                            if let Some(result) = payload.get("result") {
                                self.discover.result = Some((event.seq, result));
                            }
                            self.phase = DraftPhase::Active;
                        }
                    }
                }
            },
            MessageKind::Error { id: Some(id), .. } => {
                if self.phase == DraftPhase::AwaitingDiscoverResult && event.direction == Direction::ServerToClient {
                    if let Some(expected) = self.discover_id {
                        if same_json(id, expected) {
                            self.discover.error = Some(event.seq);
                            self.phase = DraftPhase::Active;
                        }
                    }
                }
            },
            _ => {},
        }
    }
}

/// The stateless lifecycle, folded over a trace's message events in order.
pub struct DraftLifecycle<'a> {
    phases: Vec<DraftPhase>,
    discover: DiscoverExchange<'a>,
    final_phase: DraftPhase,
    events: Ghost<Seq<TraceEvent>>,
}

impl<'a> DraftLifecycle<'a> {
    /// The events the lifecycle was folded over.
    pub closed spec fn trace(self) -> Seq<TraceEvent> {
        self.events@
    }

    #[verifier::type_invariant]
    closed spec fn wf(self) -> bool {
        &&& self.phases@.len() == self.events@.len()
        &&& forall|i: int| 0 <= i < self.events@.len() ==>
                #[trigger] self.phases@[i] == draft_after(self.events@.take(i)).phase
        &&& self.discover.record() == draft_after(self.events@).discover
        &&& self.final_phase == draft_after(self.events@).phase
    }

    /// Folds the stateless lifecycle over `events` in one pass, recording the
    /// phase before each event and the `server/discover` exchange.
    pub fn new(events: &'a [TraceEvent]) -> (l: Self)
        ensures
            l.trace() == events@,
    {
        let mut phases: Vec<DraftPhase> = Vec::new();
        let mut tracker = DraftTracker::start();
        let mut i: usize = 0;
        while i < events.len()
            invariant
                i <= events@.len(),
                phases@.len() == i,
                forall|j: int| 0 <= j < i ==> #[trigger] phases@[j] == draft_after(events@.take(j)).phase,
                tracker.state() == draft_after(events@.take(i as int)),
            decreases events@.len() - i,
        {
            let event = &events[i];
            phases.push(tracker.phase);
            proof {
                assert(events@.take(i + 1).drop_last() =~= events@.take(i as int));
                assert(events@.take(i + 1).last() == events@[i as int]);
            }
            if let Some(payload) = event.message_payload() {
                let kind = classify(payload);
                tracker.step(event, &kind);
            }
            i = i + 1;
        }
        assert(events@.take(events@.len() as int) =~= events@);
        DraftLifecycle {
            phases,
            discover: tracker.discover,
            final_phase: tracker.phase,
            events: Ghost(events@),
        }
    }

    /// The phase *before* each event, in trace order (one entry per event).
    pub fn phases(&self) -> (r: &[DraftPhase])
        ensures
            r@.len() == self.trace().len(),
            forall|i: int| 0 <= i < r@.len() ==> #[trigger] r@[i] == draft_after(self.trace().take(i)).phase,
    {
        proof { use_type_invariant(self); }
        self.phases.as_slice()
    }

    /// The lifecycle phase after the entire trace has been processed.
    pub fn final_phase(&self) -> (p: DraftPhase)
        ensures
            p == draft_after(self.trace()).phase,
    {
        proof { use_type_invariant(self); }
        self.final_phase
    }

    /// The observed `server/discover` exchange.
    pub fn discover(&self) -> (x: &DiscoverExchange<'a>)
        ensures
            x.record() == draft_after(self.trace()).discover,
    {
        proof { use_type_invariant(self); }
        &self.discover
    }

    /// The server's declared capabilities, from the `server/discover` result:
    /// `None` when no discovery completed.
    pub fn server_capabilities(&self) -> (c: Option<&'a Json>)
        ensures
            c matches Some(v) ==> draft_after(self.trace()).discover.result matches Some((_, r))
                && r.at("capabilities"@) == Some(*v),
            c is None ==> !(draft_after(self.trace()).discover.result matches Some((_, r))
                && r.at("capabilities"@) is Some),
    {
        proof { use_type_invariant(self); }
        match self.discover.result {
            Some((_, result)) => result.get("capabilities"),
            None => None,
        }
    }
}

} // verus!
