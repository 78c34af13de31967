//! Checks for the base JSON-RPC message requirements (`BASE-*`).
//!
//! These operate per message and rely on the classification's leniency:
//! malformed messages are reported precisely rather than aborting the run.

use vstd::prelude::*;
use crate::checks::sites::{tally, lemma_tally_take, lemma_tally_all};
use crate::checks::{FindingSink, entry_seqs, entry_views};
use crate::checks::sites::{entries, lemma_entries_take, lemma_entries_all};
use crate::text::debug_quoted;
use crate::checks::sites::{sites, lemma_sites_take, lemma_sites_all};
use crate::context::TraceContext;
use crate::json::{Json, Number, json_text};
use crate::keymap::KeyMap;
use crate::message::{MessageKind, Tag, spec_tag};
use crate::text::{owned, push_text, starts_with, debug_text, u64_text, text_eq};
use crate::trace::{Direction, TraceEvent};

verus! {

/// The words naming a JSON value's type in finding details.
pub open spec fn type_words(v: Json) -> Seq<char> {
    match v {
        Json::Null => "null"@,
        Json::Bool(_) => "a boolean"@,
        Json::Num(Number::Decimal(_)) => "a non-integer number"@,
        Json::Num(_) => "an integer"@,
        Json::Str(_) => "a string"@,
        Json::Array(_) => "an array"@,
        Json::Object(_) => "an object"@,
    }
}

/// Human name of a JSON value's type, for finding details.
pub fn value_type_name(value: &Json) -> (r: &'static str)
    ensures
        r@ == type_words(*value),
{
    match value {
        Json::Null => "null",
        Json::Bool(_) => "a boolean",
        Json::Num(Number::Decimal(_)) => "a non-integer number",
        Json::Num(_) => "an integer",
        Json::Str(_) => "a string",
        Json::Array(_) => "an array",
        Json::Object(_) => "an object",
    }
}

/// Whether an id is a string or an integer.
pub open spec fn id_kind_ok(id: Json) -> bool {
    match id {
        Json::Str(_) => true,
        Json::Num(Number::Unsigned(_)) => true,
        Json::Num(Number::Negative(_)) => true,
        _ => false,
    }
}

fn id_is_string_or_integer(id: &Json) -> (r: bool)
    ensures
        r == id_kind_ok(*id),
{
    match id {
        Json::Str(_) => true,
        Json::Num(Number::Unsigned(_)) => true,
        Json::Num(Number::Negative(_)) => true,
        _ => false,
    }
}

/// The payload of a message event whose classification is `tag`.
pub open spec fn tagged(e: TraceEvent, tag: Tag) -> bool {
    e.payload() matches Some(p) && spec_tag(p) == tag
}

/// A request whose id is neither a string nor an integer.
pub open spec fn bad_id_site(e: TraceEvent) -> Seq<Option<u64>> {
    if tagged(e, Tag::Request) && !id_kind_ok(e.payload().unwrap().at("id"@).unwrap()) {
        seq![Some(e.seq)]
    } else {
        Seq::empty()
    }
}

/// The method text of a request or notification event.
pub open spec fn method_name(e: TraceEvent) -> Seq<char> {
    e.payload().unwrap().at("method"@).unwrap().text().unwrap()
}

/// The finding, as (seq, sentence), of a request whose id is neither a string
/// nor an integer.
pub open spec fn bad_id_entry(e: TraceEvent) -> Seq<(Option<u64>, Seq<char>)> {
    if tagged(e, Tag::Request) && !id_kind_ok(e.payload().unwrap().at("id"@).unwrap()) {
        seq![(Some(e.seq), "request "@ + debug_quoted(method_name(e)) + " carries "@
            + type_words(e.payload().unwrap().at("id"@).unwrap())
            + " as its id; the ID must be a string or an integer"@)]
    } else {
        Seq::empty()
    }
}

/// `BASE-001`: "Requests MUST include a string or integer ID."
pub fn request_id_type(context: &TraceContext<'_>, sink: &mut FindingSink)
    ensures
        final(sink).check_id() == old(sink).check_id(),
        final(sink).subject_count() == old(sink).subject_count(),
        entry_seqs(final(sink).found()) == entry_seqs(old(sink).found())
            + sites(context.trace(), |e: TraceEvent| bad_id_site(e)),
        entry_views(final(sink).found()) == entry_views(old(sink).found())
            + entries(context.trace(), |e: TraceEvent| bad_id_entry(e)),
{
    let ghost events = context.trace();
    let ghost f = |e: TraceEvent| bad_id_site(e);
    let ghost h = |e: TraceEvent| bad_id_entry(e);
    let n = context.len();
    let mut i: usize = 0;
    while i < n
        invariant
            n == events.len(),
            events == context.trace(),
            i <= n,
            f == (|e: TraceEvent| bad_id_site(e)),
            h == (|e: TraceEvent| bad_id_entry(e)),
            sink.check_id() == old(sink).check_id(),
            sink.subject_count() == old(sink).subject_count(),
            entry_seqs(sink.found()) == entry_seqs(old(sink).found()) + sites(events.take(i as int), f),
            entry_views(sink.found()) == entry_views(old(sink).found()) + entries(events.take(i as int), h),
        decreases n - i,
    {
        proof { lemma_sites_take(events, f, i as int); lemma_entries_take(events, h, i as int); }
        let event = context.event(i);
        if let Some(MessageKind::Request { method, id }) = context.kind(i) {
            if !id_is_string_or_integer(id) {
                let mut d = owned("request ");
                let m = debug_text(method);
                push_text(&mut d, m.as_str());
                push_text(&mut d, " carries ");
                push_text(&mut d, value_type_name(id));
                push_text(&mut d, " as its id; the ID must be a string or an integer");
                sink.push(Some(event.seq), d);
            }
        }
        i = i + 1;
    }
    proof { lemma_sites_all(events, f); lemma_entries_all(events, h); }
}

/// A request whose id is `null`.
pub open spec fn null_id_site(e: TraceEvent) -> Seq<Option<u64>> {
    if tagged(e, Tag::Request) && e.payload().unwrap().at("id"@).unwrap() is Null {
        seq![Some(e.seq)]
    } else {
        Seq::empty()
    }
}

/// The finding, as (seq, sentence), of a request whose id is `null`.
pub open spec fn null_id_entry(e: TraceEvent) -> Seq<(Option<u64>, Seq<char>)> {
    if tagged(e, Tag::Request) && e.payload().unwrap().at("id"@).unwrap() is Null {
        seq![(Some(e.seq), "request "@ + debug_quoted(method_name(e)) + " carries a null id, which MCP forbids"@)]
    } else {
        Seq::empty()
    }
}

/// `BASE-002`: "Unlike base JSON-RPC, the ID MUST NOT be `null`."
pub fn request_id_not_null(context: &TraceContext<'_>, sink: &mut FindingSink)
    ensures
        final(sink).check_id() == old(sink).check_id(),
        final(sink).subject_count() == old(sink).subject_count(),
        entry_seqs(final(sink).found()) == entry_seqs(old(sink).found())
            + sites(context.trace(), |e: TraceEvent| null_id_site(e)),
        entry_views(final(sink).found()) == entry_views(old(sink).found())
            + entries(context.trace(), |e: TraceEvent| null_id_entry(e)),
{
    let ghost events = context.trace();
    let ghost f = |e: TraceEvent| null_id_site(e);
    let ghost h = |e: TraceEvent| null_id_entry(e);
    let n = context.len();
    let mut i: usize = 0;
    while i < n
        invariant
            n == events.len(),
            events == context.trace(),
            i <= n,
            f == (|e: TraceEvent| null_id_site(e)),
            h == (|e: TraceEvent| null_id_entry(e)),
            sink.check_id() == old(sink).check_id(),
            sink.subject_count() == old(sink).subject_count(),
            entry_seqs(sink.found()) == entry_seqs(old(sink).found()) + sites(events.take(i as int), f),
            entry_views(sink.found()) == entry_views(old(sink).found()) + entries(events.take(i as int), h),
        decreases n - i,
    {
        proof { lemma_sites_take(events, f, i as int); lemma_entries_take(events, h, i as int); }
        let event = context.event(i);
        if let Some(MessageKind::Request { method, id }) = context.kind(i) {
            if id.is_null() {
                let mut d = owned("request ");
                let m = debug_text(method);
                push_text(&mut d, m.as_str());
                push_text(&mut d, " carries a null id, which MCP forbids");
                sink.push(Some(event.seq), d);
            }
        }
        i = i + 1;
    }
    proof { lemma_sites_all(events, f); lemma_entries_all(events, h); }
}

/// The party a direction's messages come from.
pub open spec fn party(d: Direction) -> Seq<char> {
    match d {
        Direction::ClientToServer => "client"@,
        Direction::ServerToClient => "server"@,
    }
}

fn party_text(d: Direction) -> (r: String)
    ensures
        r@ == party(d),
{
    match d {
        Direction::ClientToServer => owned("client"),
        Direction::ServerToClient => owned("server"),
    }
}

/// The party that sent the request a message in direction `d` answers.
pub open spec fn requester(d: Direction) -> Direction {
    match d {
        Direction::ClientToServer => Direction::ServerToClient,
        Direction::ServerToClient => Direction::ClientToServer,
    }
}

/// The request key of a request event: its party and canonical id.
pub open spec fn request_key(e: TraceEvent) -> (Seq<char>, Seq<char>) {
    (party(e.direction), json_text(e.payload().unwrap().at("id"@).unwrap()))
}

/// The first-use walk: the position each (party, id) was first used at, and
/// the findings so far.
pub struct FirstUse {
    pub first: Map<(Seq<char>, Seq<char>), usize>,
    pub found: Seq<Option<u64>>,
}

/// The walk over the first `n` events: a request with a non-null id that its
/// party already used is the finding; a fresh one is recorded.
pub open spec fn first_use_walk(events: Seq<TraceEvent>, n: nat) -> FirstUse
    decreases n,
{
    if n == 0 {
        FirstUse { first: Map::empty(), found: Seq::empty() }
    } else {
        let w = first_use_walk(events, (n - 1) as nat);
        let e = events[n - 1];
        if tagged(e, Tag::Request) && !(e.payload().unwrap().at("id"@).unwrap() is Null) {
            if w.first.contains_key(request_key(e)) {
                FirstUse { found: w.found.push(Some(e.seq)), ..w }
            } else {
                FirstUse { first: w.first.insert(request_key(e), (n - 1) as usize), ..w }
            }
        } else {
            w
        }
    }
}

/// `BASE-003`: "The request ID MUST NOT have been previously used by the
/// requestor within the same session." A null id is the other clause's.
pub fn request_id_unique(context: &TraceContext<'_>, sink: &mut FindingSink)
    ensures
        final(sink).check_id() == old(sink).check_id(),
        final(sink).subject_count() == old(sink).subject_count(),
        entry_seqs(final(sink).found()) == entry_seqs(old(sink).found())
            + first_use_walk(context.trace(), context.trace().len() as nat).found,
{
    let ghost events = context.trace();
    let n = context.len();
    let mut first = KeyMap::new();
    let mut i: usize = 0;
    while i < n
        invariant
            n == events.len(),
            events == context.trace(),
            i <= n,
            first.view_map() == first_use_walk(events, i as nat).first,
            forall|k: (Seq<char>, Seq<char>)| #[trigger] first.view_map().contains_key(k) ==> first.view_map()[k] < i,
            sink.check_id() == old(sink).check_id(),
            sink.subject_count() == old(sink).subject_count(),
            entry_seqs(sink.found()) == entry_seqs(old(sink).found()) + first_use_walk(events, i as nat).found,
        decreases n - i,
    {
        let event = context.event(i);
        if let Some(MessageKind::Request { method, id }) = context.kind(i) {
            if !id.is_null() {
                let who = party_text(event.direction);
                let key = id.to_text();
                if first.contains(who.as_str(), key.as_str()) {
                    let ghost before = first.view_map();
                    let previous = first.remove(who.as_str(), key.as_str());
                    let at = match previous {
                        Some(p) => p,
                        None => 0,
                    };
                    let at_seq = context.event(at).seq;
                    first.insert(who, key, at);
                    assert(first.view_map() =~= before);
                    let mut d = owned("request ");
                    let m = debug_text(method);
                    push_text(&mut d, m.as_str());
                    push_text(&mut d, " reuses id ");
                    let k = id.to_text();
                    push_text(&mut d, k.as_str());
                    push_text(&mut d, ", already used by the same party at seq ");
                    let s = u64_text(at_seq);
                    push_text(&mut d, s.as_str());
                    sink.push(Some(event.seq), d);
                } else {
                    first.insert(who, key, i);
                }
            }
        }
        i = i + 1;
    }
}

/// The correlation walk: the (party, id) keys of requests still outstanding,
/// and the findings so far.
pub struct Correlation {
    pub open: Set<(Seq<char>, Seq<char>)>,
    pub found: Seq<Option<u64>>,
}

/// A response's id, when it is present and not `null`.
pub open spec fn live_id(p: Json) -> Option<Json> {
    match p.at("id"@) {
        Some(id) => if id is Null { None } else { Some(id) },
        None => None,
    }
}

/// Closes the request a response in direction `d` answers, if it is open.
pub open spec fn consume(w: Correlation, d: Direction, p: Json) -> Correlation {
    match live_id(p) {
        Some(id) => Correlation { open: w.open.remove((party(requester(d)), json_text(id))), ..w },
        None => w,
    }
}

/// Judges a response: a missing or null id, or one naming no outstanding
/// request of the other party, is the finding; a match closes the request.
pub open spec fn judge(w: Correlation, e: TraceEvent) -> Correlation {
    let p = e.payload().unwrap();
    match live_id(p) {
        None => Correlation { found: w.found.push(Some(e.seq)), ..w },
        Some(id) => {
            let key = (party(requester(e.direction)), json_text(id));
            if w.open.contains(key) {
                Correlation { open: w.open.remove(key), ..w }
            } else {
                Correlation { found: w.found.push(Some(e.seq)), ..w }
            }
        },
    }
}

/// One step of the walk; `results` picks the flavour judged. The other
/// flavour's responses close what they answer without being judged, and an
/// error with no readable id is the spec's escape hatch.
pub open spec fn correlation_step(w: Correlation, e: TraceEvent, results: bool) -> Correlation {
    match e.payload() {
        None => w,
        Some(p) => {
            let tag = spec_tag(p);
            if tag == Tag::Request {
                if p.at("id"@).unwrap() is Null {
                    w
                } else {
                    Correlation { open: w.open.insert((party(e.direction), json_text(p.at("id"@).unwrap()))), ..w }
                }
            } else if tag == Tag::Result {
                if results { judge(w, e) } else { consume(w, e.direction, p) }
            } else if tag == Tag::Error {
                if results {
                    consume(w, e.direction, p)
                } else if live_id(p) is Some {
                    judge(w, e)
                } else {
                    w
                }
            } else {
                w
            }
        },
    }
}

/// The walk over the first `n` events.
pub open spec fn correlation_walk(events: Seq<TraceEvent>, n: nat, results: bool) -> Correlation
    decreases n,
{
    if n == 0 {
        Correlation { open: Set::empty(), found: Seq::empty() }
    } else {
        correlation_step(correlation_walk(events, (n - 1) as nat, results), events[n - 1], results)
    }
}

/// Judges one response's id against the outstanding requests.
fn check_response_id(
    seq: u64,
    response_direction: Direction,
    id: Option<&Json>,
    outstanding: &mut KeyMap,
    sink: &mut FindingSink,
    flavor: &str,
)
    ensures
        final(sink).check_id() == old(sink).check_id(),
        final(sink).subject_count() == old(sink).subject_count(),
        ({
            let w = Correlation { open: old(outstanding).view_map().dom(), found: Seq::empty() };
            let e_id = match id { Some(v) => Some(*v), None => None };
            let after = match e_id {
                Some(v) => if v is Null { None } else { Some(v) },
                None => None,
            };
            let key = match after {
                Some(v) => (party(requester(response_direction)), json_text(v)),
                None => (Seq::empty(), Seq::empty()),
            };
            &&& after is None ==> final(outstanding).view_map().dom() == w.open
                && entry_seqs(final(sink).found()) == entry_seqs(old(sink).found()).push(Some(seq))
            &&& after is Some && w.open.contains(key) ==> final(outstanding).view_map().dom() == w.open.remove(key)
                && entry_seqs(final(sink).found()) == entry_seqs(old(sink).found())
            &&& after is Some && !w.open.contains(key) ==> final(outstanding).view_map().dom() == w.open
                && entry_seqs(final(sink).found()) == entry_seqs(old(sink).found()).push(Some(seq))
        }),
{
    match id {
        None => {
            let mut d = owned(flavor);
            push_text(&mut d, " response is missing its id; responses must echo the request id");
            sink.push(Some(seq), d);
        },
        Some(id) => {
            if id.is_null() {
                let mut d = owned(flavor);
                push_text(&mut d, " response carries a null id; responses must echo the request id");
                sink.push(Some(seq), d);
            } else {
                let who = party_text(match response_direction {
                    Direction::ClientToServer => Direction::ServerToClient,
                    Direction::ServerToClient => Direction::ClientToServer,
                });
                let key = id.to_text();
                let removed = outstanding.remove(who.as_str(), key.as_str());
                assert(outstanding.view_map().dom() =~= old(outstanding).view_map().dom().remove((who@, key@)));
                if removed.is_none() {
                    let mut d = owned(flavor);
                    push_text(&mut d, " response answers id ");
                    push_text(&mut d, key.as_str());
                    push_text(&mut d, ", but that party has no outstanding request with that id (never sent, or already answered)");
                    sink.push(Some(seq), d);
                    assert(old(outstanding).view_map().dom().remove((who@, key@)) =~= old(outstanding).view_map().dom());
                }
            }
        },
    }
}

/// Closes the request a response answers, without judging it.
fn consume_outstanding(response_direction: Direction, id: Option<&Json>, outstanding: &mut KeyMap)
    ensures
        ({
            let after = match id {
                Some(v) => if *v is Null { None } else { Some(*v) },
                None => None,
            };
            match after {
                Some(v) => final(outstanding).view_map().dom()
                    == old(outstanding).view_map().dom().remove((party(requester(response_direction)), json_text(v))),
                None => final(outstanding).view_map().dom() == old(outstanding).view_map().dom(),
            }
        }),
{
    if let Some(id) = id {
        if !id.is_null() {
            let who = party_text(match response_direction {
                Direction::ClientToServer => Direction::ServerToClient,
                Direction::ServerToClient => Direction::ClientToServer,
            });
            let key = id.to_text();
            let _ = outstanding.remove(who.as_str(), key.as_str());
            assert(outstanding.view_map().dom() =~= old(outstanding).view_map().dom().remove((who@, key@)));
        }
    }
}

/// One subject per response of the judged flavour: every result, or every
/// error with a readable id.
pub open spec fn response_subject(e: TraceEvent, results: bool) -> nat {
    match e.payload() {
        None => 0,
        Some(p) => if spec_tag(p) == Tag::Result && results {
            1
        } else if spec_tag(p) == Tag::Error && !results && live_id(p) is Some {
            1
        } else {
            0
        },
    }
}

/// Walks responses of one flavour and reports those that match no
/// outstanding request from the opposite party.
fn responses_match_requests(context: &TraceContext<'_>, sink: &mut FindingSink, want_results: bool)
    ensures
        final(sink).check_id() == old(sink).check_id(),
        entry_seqs(final(sink).found()) == entry_seqs(old(sink).found())
            + correlation_walk(context.trace(), context.trace().len() as nat, want_results).found,
        final(sink).subject_count() == crate::checks::after_counting(old(sink).subject_count(),
            tally(context.trace(), |e: TraceEvent| response_subject(e, want_results)) as int),
{
    sink.examined_many(0);
    let ghost events = context.trace();
    let ghost g = |e: TraceEvent| response_subject(e, want_results);
    let n = context.len();
    let mut outstanding = KeyMap::new();
    let mut i: usize = 0;
    assert(outstanding.view_map().dom() =~= Set::<(Seq<char>, Seq<char>)>::empty());
    while i < n
        invariant
            n == events.len(),
            events == context.trace(),
            i <= n,
            outstanding.view_map().dom() == correlation_walk(events, i as nat, want_results).open,
            sink.check_id() == old(sink).check_id(),
            entry_seqs(sink.found()) == entry_seqs(old(sink).found()) + correlation_walk(events, i as nat, want_results).found,
            g == (|e: TraceEvent| response_subject(e, want_results)),
            sink.subject_count() == crate::checks::after_counting(old(sink).subject_count(), tally(events.take(i as int), g) as int),
        decreases n - i,
    {
        proof { lemma_tally_take(events, g, i as int); }
        let event = context.event(i);
        let ghost w = correlation_walk(events, i as nat, want_results);
        let ghost before = entry_seqs(sink.found());
        match context.kind(i) {
            Some(MessageKind::Request { id, .. }) => {
                if !id.is_null() {
                    let who = party_text(event.direction);
                    let key = id.to_text();
                    outstanding.insert(who, key, i);
                    assert(outstanding.view_map().dom() =~= w.open.insert((party(event.direction), json_text(**id))));
                }
            },
            Some(MessageKind::Result { id }) => {
                if want_results {
                    sink.examined();
                    check_response_id(event.seq, event.direction, *id, &mut outstanding, sink, "result");
                } else {
                    consume_outstanding(event.direction, *id, &mut outstanding);
                }
            },
            Some(MessageKind::Error { id, .. }) => {
                if want_results {
                    consume_outstanding(event.direction, *id, &mut outstanding);
                } else {
                    let live = match id {
                        Some(v) => !v.is_null(),
                        None => false,
                    };
                    if live {
                        sink.examined();
                        check_response_id(event.seq, event.direction, *id, &mut outstanding, sink, "error");
                    }
                }
            },
            _ => {},
        }
        i = i + 1;
    }
    proof { lemma_tally_all(events, g); }
}

/// `BASE-004`: "Result responses MUST include the same ID as the request they
/// correspond to."
pub fn result_id_matches(context: &TraceContext<'_>, sink: &mut FindingSink)
    ensures
        final(sink).check_id() == old(sink).check_id(),
        entry_seqs(final(sink).found()) == entry_seqs(old(sink).found())
            + correlation_walk(context.trace(), context.trace().len() as nat, true).found,
        final(sink).subject_count() == crate::checks::after_counting(old(sink).subject_count(),
            tally(context.trace(), |e: TraceEvent| response_subject(e, true)) as int),
{
    responses_match_requests(context, sink, true);
}

/// `BASE-009`: "Error responses MUST include the same ID as the request they
/// correspond to (except in error cases where the ID could not be read due a
/// malformed request)."
pub fn error_id_matches(context: &TraceContext<'_>, sink: &mut FindingSink)
    ensures
        final(sink).check_id() == old(sink).check_id(),
        entry_seqs(final(sink).found()) == entry_seqs(old(sink).found())
            + correlation_walk(context.trace(), context.trace().len() as nat, false).found,
        final(sink).subject_count() == crate::checks::after_counting(old(sink).subject_count(),
            tally(context.trace(), |e: TraceEvent| response_subject(e, false)) as int),
{
    responses_match_requests(context, sink, false);
}

/// A request in the reserved `notifications/` namespace.
pub open spec fn notification_id_site(e: TraceEvent) -> Seq<Option<u64>> {
    if tagged(e, Tag::Request) && (e.payload().unwrap().at("method"@).unwrap().text() matches Some(m)
        && m.len() >= 14 && m.take(14) == "notifications/"@) {
        seq![Some(e.seq)]
    } else {
        Seq::empty()
    }
}

/// The finding, as (seq, sentence), of a request in the reserved
/// `notifications/` namespace.
pub open spec fn notification_id_entry(e: TraceEvent) -> Seq<(Option<u64>, Seq<char>)> {
    if notification_id_site(e).len() > 0 {
        seq![(Some(e.seq), debug_quoted(method_name(e))
            + " is a notification method but the message carries an id; notifications must not include one"@)]
    } else {
        Seq::empty()
    }
}

/// `BASE-005`: "Notifications MUST NOT include an ID." A message in the
/// reserved `notifications/` namespace that carries an `id` classifies as a
/// request; this check is what catches it.
pub fn notification_no_id(context: &TraceContext<'_>, sink: &mut FindingSink)
    ensures
        final(sink).check_id() == old(sink).check_id(),
        final(sink).subject_count() == old(sink).subject_count(),
        entry_seqs(final(sink).found()) == entry_seqs(old(sink).found())
            + sites(context.trace(), |e: TraceEvent| notification_id_site(e)),
        entry_views(final(sink).found()) == entry_views(old(sink).found())
            + entries(context.trace(), |e: TraceEvent| notification_id_entry(e)),
{
    let ghost events = context.trace();
    let ghost f = |e: TraceEvent| notification_id_site(e);
    let ghost h = |e: TraceEvent| notification_id_entry(e);
    let n = context.len();
    let mut i: usize = 0;
    proof { reveal_strlit("notifications/"); }
    while i < n
        invariant
            n == events.len(),
            events == context.trace(),
            i <= n,
            f == (|e: TraceEvent| notification_id_site(e)),
            h == (|e: TraceEvent| notification_id_entry(e)),
            "notifications/"@.len() == 14,
            sink.check_id() == old(sink).check_id(),
            sink.subject_count() == old(sink).subject_count(),
            entry_seqs(sink.found()) == entry_seqs(old(sink).found()) + sites(events.take(i as int), f),
            entry_views(sink.found()) == entry_views(old(sink).found()) + entries(events.take(i as int), h),
        decreases n - i,
    {
        proof { lemma_sites_take(events, f, i as int); lemma_entries_take(events, h, i as int); }
        let event = context.event(i);
        if let Some(MessageKind::Request { method, .. }) = context.kind(i) {
            if starts_with(method, "notifications/") {
                let d0 = debug_text(method);
                let mut d = owned(d0.as_str());
                push_text(&mut d, " is a notification method but the message carries an id; notifications must not include one");
                sink.push(Some(event.seq), d);
            }
        }
        i = i + 1;
    }
    proof { lemma_sites_all(events, f); lemma_entries_all(events, h); }
}

/// The shape defects of an error response's `error` member: not an object;
/// or no `code`, and no `message` or a non-string one.
pub open spec fn error_shape_site(e: TraceEvent) -> Seq<Option<u64>> {
    if tagged(e, Tag::Error) {
        let error = e.payload().unwrap().at("error"@).unwrap();
        if !(error is Object) {
            seq![Some(e.seq)]
        } else {
            (if error.at("code"@) is None { seq![Some(e.seq)] } else { Seq::empty() })
                + (match error.at("message"@) {
                    None => seq![Some(e.seq)],
                    Some(m) => if m is Str { Seq::empty() } else { seq![Some(e.seq)] },
                })
        }
    } else {
        Seq::empty()
    }
}

/// The findings, as (seq, sentence), of an error response's shape defects.
pub open spec fn error_shape_entry(e: TraceEvent) -> Seq<(Option<u64>, Seq<char>)> {
    if tagged(e, Tag::Error) {
        let error = e.payload().unwrap().at("error"@).unwrap();
        if !(error is Object) {
            seq![(Some(e.seq), "error member is "@ + type_words(error) + ", expected an object"@)]
        } else {
            (if error.at("code"@) is None {
                seq![(Some(e.seq), "error object lacks a code member"@)]
            } else {
                Seq::empty()
            }) + (match error.at("message"@) {
                None => seq![(Some(e.seq), "error object lacks a message member"@)],
                Some(m) => if m is Str {
                    Seq::empty()
                } else {
                    seq![(Some(e.seq), "error message member is "@ + type_words(m) + ", expected a string"@)]
                },
            })
        }
    } else {
        Seq::empty()
    }
}

/// `BASE-006`: "Error responses MUST include an `error` field with a `code`
/// and `message`."
pub fn error_shape(context: &TraceContext<'_>, sink: &mut FindingSink)
    ensures
        final(sink).check_id() == old(sink).check_id(),
        final(sink).subject_count() == old(sink).subject_count(),
        entry_seqs(final(sink).found()) == entry_seqs(old(sink).found())
            + sites(context.trace(), |e: TraceEvent| error_shape_site(e)),
        entry_views(final(sink).found()) == entry_views(old(sink).found())
            + entries(context.trace(), |e: TraceEvent| error_shape_entry(e)),
{
    let ghost events = context.trace();
    let ghost f = |e: TraceEvent| error_shape_site(e);
    let ghost h = |e: TraceEvent| error_shape_entry(e);
    let n = context.len();
    let mut i: usize = 0;
    while i < n
        invariant
            n == events.len(),
            events == context.trace(),
            i <= n,
            f == (|e: TraceEvent| error_shape_site(e)),
            h == (|e: TraceEvent| error_shape_entry(e)),
            sink.check_id() == old(sink).check_id(),
            sink.subject_count() == old(sink).subject_count(),
            entry_seqs(sink.found()) == entry_seqs(old(sink).found()) + sites(events.take(i as int), f),
            entry_views(sink.found()) == entry_views(old(sink).found()) + entries(events.take(i as int), h),
        decreases n - i,
    {
        proof { lemma_sites_take(events, f, i as int); lemma_entries_take(events, h, i as int); }
        let event = context.event(i);
        let ghost before = entry_seqs(sink.found());
        let ghost before_views = entry_views(sink.found());
        if let Some(MessageKind::Error { error, .. }) = context.kind(i) {
            if !error.is_object() {
                let mut d = owned("error member is ");
                push_text(&mut d, value_type_name(error));
                push_text(&mut d, ", expected an object");
                sink.push(Some(event.seq), d);
            } else {
                if error.get("code").is_none() {
                    sink.push(Some(event.seq), owned("error object lacks a code member"));
                }
                match error.get("message") {
                    None => {
                        sink.push(Some(event.seq), owned("error object lacks a message member"));
                    },
                    Some(message) => {
                        if !message.is_string() {
                            let mut d = owned("error message member is ");
                            push_text(&mut d, value_type_name(message));
                            push_text(&mut d, ", expected a string");
                            sink.push(Some(event.seq), d);
                        }
                    },
                }
                assert(entry_seqs(sink.found()) =~= before + f(events[i as int]));
                assert(entry_views(sink.found()) =~= before_views + h(events[i as int]));
            }
        }
        i = i + 1;
    }
    proof { lemma_sites_all(events, f); lemma_entries_all(events, h); }
}

/// An error response whose `error.code` is present and not an integer.
pub open spec fn code_type_site(e: TraceEvent) -> Seq<Option<u64>> {
    if tagged(e, Tag::Error) && (e.payload().unwrap().at("error"@).unwrap().at("code"@) matches Some(c)
        && !c.spec_is_integer()) {
        seq![Some(e.seq)]
    } else {
        Seq::empty()
    }
}

/// The finding, as (seq, sentence), of an error response whose code is not an
/// integer.
pub open spec fn code_type_entry(e: TraceEvent) -> Seq<(Option<u64>, Seq<char>)> {
    if code_type_site(e).len() > 0 {
        seq![(Some(e.seq), "error code is "@
            + type_words(e.payload().unwrap().at("error"@).unwrap().at("code"@).unwrap())
            + ", expected an integer"@)]
    } else {
        Seq::empty()
    }
}

/// `BASE-007`: "Error codes MUST be integers."
pub fn error_code_integer(context: &TraceContext<'_>, sink: &mut FindingSink)
    ensures
        final(sink).check_id() == old(sink).check_id(),
        final(sink).subject_count() == old(sink).subject_count(),
        entry_seqs(final(sink).found()) == entry_seqs(old(sink).found())
            + sites(context.trace(), |e: TraceEvent| code_type_site(e)),
        entry_views(final(sink).found()) == entry_views(old(sink).found())
            + entries(context.trace(), |e: TraceEvent| code_type_entry(e)),
{
    let ghost events = context.trace();
    let ghost f = |e: TraceEvent| code_type_site(e);
    let ghost h = |e: TraceEvent| code_type_entry(e);
    let n = context.len();
    let mut i: usize = 0;
    while i < n
        invariant
            n == events.len(),
            events == context.trace(),
            i <= n,
            f == (|e: TraceEvent| code_type_site(e)),
            h == (|e: TraceEvent| code_type_entry(e)),
            sink.check_id() == old(sink).check_id(),
            sink.subject_count() == old(sink).subject_count(),
            entry_seqs(sink.found()) == entry_seqs(old(sink).found()) + sites(events.take(i as int), f),
            entry_views(sink.found()) == entry_views(old(sink).found()) + entries(events.take(i as int), h),
        decreases n - i,
    {
        proof { lemma_sites_take(events, f, i as int); lemma_entries_take(events, h, i as int); }
        let event = context.event(i);
        if let Some(MessageKind::Error { error, .. }) = context.kind(i) {
            if let Some(code) = error.get("code") {
                if !code.is_integer() {
                    let mut d = owned("error code is ");
                    push_text(&mut d, value_type_name(code));
                    push_text(&mut d, ", expected an integer");
                    sink.push(Some(event.seq), d);
                }
            }
        }
        i = i + 1;
    }
    proof { lemma_sites_all(events, f); lemma_entries_all(events, h); }
}

/// A response-shaped message (an id, no method) with neither `result` nor
/// `error`.
pub open spec fn missing_result_site(e: TraceEvent) -> Seq<Option<u64>> {
    if tagged(e, Tag::Invalid) && e.payload().unwrap() is Object
        && e.payload().unwrap().at("id"@) is Some && e.payload().unwrap().at("method"@) is None
        && e.payload().unwrap().at("result"@) is None && e.payload().unwrap().at("error"@) is None {
        seq![Some(e.seq)]
    } else {
        Seq::empty()
    }
}

/// `BASE-010`: "Result responses MUST include a `result` field."
pub fn result_field(context: &TraceContext<'_>, sink: &mut FindingSink)
    ensures
        final(sink).check_id() == old(sink).check_id(),
        crate::checks::extends_with(old(sink).found(), final(sink).found(), "response-shaped message (id present, no method) carries no result field"@),
        final(sink).subject_count() == old(sink).subject_count(),
        entry_seqs(final(sink).found()) == entry_seqs(old(sink).found())
            + sites(context.trace(), |e: TraceEvent| missing_result_site(e)),
{
    let ghost events = context.trace();
    let ghost f = |e: TraceEvent| missing_result_site(e);
    let n = context.len();
    let mut i: usize = 0;
    while i < n
        invariant
            n == events.len(),
            events == context.trace(),
            i <= n,
            f == (|e: TraceEvent| missing_result_site(e)),
            sink.check_id() == old(sink).check_id(),
            crate::checks::extends_with(old(sink).found(), sink.found(), "response-shaped message (id present, no method) carries no result field"@),
            sink.subject_count() == old(sink).subject_count(),
            entry_seqs(sink.found()) == entry_seqs(old(sink).found()) + sites(events.take(i as int), f),
        decreases n - i,
    {
        proof { lemma_sites_take(events, f, i as int); }
        let event = context.event(i);
        if let Some(MessageKind::Invalid { .. }) = context.kind(i) {
            if let Some(p) = event.message_payload() {
                if p.is_object() && p.get("id").is_some() && p.get("method").is_none()
                    && p.get("result").is_none() && p.get("error").is_none() {
                    sink.push(Some(event.seq), owned(
                        "response-shaped message (id present, no method) carries no result field"));
                }
            }
        }
        i = i + 1;
    }
    proof { lemma_sites_all(events, f); }
}

/// A message that is not a JSON-RPC shape, or lacks `"jsonrpc": "2.0"`.
pub open spec fn version_site(e: TraceEvent) -> Seq<Option<u64>> {
    match e.payload() {
        Some(p) => if spec_tag(p) == Tag::Invalid || !(match p.at("jsonrpc"@) {
            Some(v) => v.text() == Some("2.0"@),
            None => false,
        }) {
            seq![Some(e.seq)]
        } else {
            Seq::empty()
        },
        None => Seq::empty(),
    }
}

/// The finding, as (seq, sentence), of a message that is not a JSON-RPC shape
/// or lacks `"jsonrpc": "2.0"`.
pub open spec fn version_entry(e: TraceEvent) -> Seq<(Option<u64>, Seq<char>)> {
    match e.payload() {
        Some(p) => if spec_tag(p) == Tag::Invalid {
            seq![(Some(e.seq), "message is not a JSON-RPC request, notification, or response: "@
                + crate::message::invalid_reason(p))]
        } else {
            match p.at("jsonrpc"@) {
                Some(v) => if v.text() == Some("2.0"@) {
                    Seq::empty()
                } else {
                    seq![(Some(e.seq), "jsonrpc member is "@ + crate::json::json_text(v)
                        + ", expected the string \"2.0\""@)]
                },
                None => seq![(Some(e.seq),
                    "message lacks the jsonrpc member; JSON-RPC 2.0 requires \"jsonrpc\": \"2.0\""@)],
            }
        },
        None => Seq::empty(),
    }
}

/// `BASE-008`: "All messages between MCP clients and servers MUST follow the
/// JSON-RPC 2.0 specification": the message classifies as a JSON-RPC shape and
/// carries `"jsonrpc": "2.0"`.
pub fn jsonrpc_version(context: &TraceContext<'_>, sink: &mut FindingSink)
    ensures
        final(sink).check_id() == old(sink).check_id(),
        final(sink).subject_count() == old(sink).subject_count(),
        entry_seqs(final(sink).found()) == entry_seqs(old(sink).found())
            + sites(context.trace(), |e: TraceEvent| version_site(e)),
        entry_views(final(sink).found()) == entry_views(old(sink).found())
            + entries(context.trace(), |e: TraceEvent| version_entry(e)),
{
    let ghost events = context.trace();
    let ghost f = |e: TraceEvent| version_site(e);
    let ghost h = |e: TraceEvent| version_entry(e);
    let n = context.len();
    let mut i: usize = 0;
    while i < n
        invariant
            n == events.len(),
            events == context.trace(),
            i <= n,
            f == (|e: TraceEvent| version_site(e)),
            h == (|e: TraceEvent| version_entry(e)),
            sink.check_id() == old(sink).check_id(),
            sink.subject_count() == old(sink).subject_count(),
            entry_seqs(sink.found()) == entry_seqs(old(sink).found()) + sites(events.take(i as int), f),
            entry_views(sink.found()) == entry_views(old(sink).found()) + entries(events.take(i as int), h),
        decreases n - i,
    {
        proof { lemma_sites_take(events, f, i as int); lemma_entries_take(events, h, i as int); }
        let event = context.event(i);
        match context.kind(i) {
            Some(MessageKind::Invalid { reason }) => {
                let mut d = owned("message is not a JSON-RPC request, notification, or response: ");
                push_text(&mut d, reason);
                sink.push(Some(event.seq), d);
            },
            Some(_) => {
                let payload = event.message_payload().unwrap();
                match payload.get("jsonrpc") {
                    Some(version) => {
                        let ok = match version.as_str() {
                            Some(v) => text_eq(v, "2.0"),
                            None => false,
                        };
                        if !ok {
                            let mut d = owned("jsonrpc member is ");
                            let t = version.to_text();
                            push_text(&mut d, t.as_str());
                            push_text(&mut d, ", expected the string \"2.0\"");
                            sink.push(Some(event.seq), d);
                        }
                    },
                    None => {
                        sink.push(Some(event.seq), owned(
                            "message lacks the jsonrpc member; JSON-RPC 2.0 requires \"jsonrpc\": \"2.0\""));
                    },
                }
            },
            None => {},
        }
        i = i + 1;
    }
    proof { lemma_sites_all(events, f); lemma_entries_all(events, h); }
}

} // verus!
