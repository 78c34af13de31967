//! The `2026-07-28` response-stream clauses: what may travel on the stream a
//! POST opened, and for how long.

use vstd::prelude::*;
use crate::checks::sites::{entries, lemma_entries_take, lemma_entries_all};
use crate::checks::entry_views;
use crate::checks::{FindingSink, entry_seqs};
use crate::checks::sites::{sites, lemma_sites_take, lemma_sites_all};
use crate::checks::transport::{header_value, get_header, payload_method, http_headers};
use crate::context::TraceContext;
use crate::json::{Json, json_text};
use crate::text::{owned, push_text, text_eq, starts_with, contains_text, texts, u64_text};
use crate::trace::{Direction, EventBody, LifecycleEvent, TraceEvent, TransportKind};

verus! {

/// A client message over Streamable HTTP that is a JSON-RPC response: an id,
/// no method, and a result or an error.
pub open spec fn client_response_site(e: TraceEvent) -> Seq<Option<u64>> {
    if e.direction == Direction::ClientToServer && e.transport == TransportKind::StreamableHttp && e.payload() is Some
        && e.payload().unwrap().at("id"@) is Some && e.payload().unwrap().at("method"@) is None
        && (e.payload().unwrap().at("result"@) is Some || e.payload().unwrap().at("error"@) is Some) {
        seq![Some(e.seq)]
    } else {
        Seq::empty()
    }
}

/// `TRAN-060`: clients do not POST JSON-RPC responses: this revision removed
/// server-initiated requests, so there is nothing for one to answer. A client
/// response over stdio is left to the stdio clauses.
pub fn client_no_responses(context: &TraceContext<'_>, sink: &mut FindingSink)
    ensures
        final(sink).check_id() == old(sink).check_id(),
        crate::checks::extends_with(old(sink).found(), final(sink).found(), "client sent a JSON-RPC response; 2026-07-28 removed server-initiated requests, so there is nothing for one to answer"@),
        final(sink).subject_count() == old(sink).subject_count(),
        entry_seqs(final(sink).found()) == entry_seqs(old(sink).found())
            + sites(context.trace(), |e: TraceEvent| client_response_site(e)),
{
    let ghost events = context.trace();
    let ghost f = |e: TraceEvent| client_response_site(e);
    let n = context.len();
    let mut i: usize = 0;
    while i < n
        invariant
            n == events.len(),
            events == context.trace(),
            i <= n,
            f == (|e: TraceEvent| client_response_site(e)),
            sink.check_id() == old(sink).check_id(),
            crate::checks::extends_with(old(sink).found(), sink.found(), "client sent a JSON-RPC response; 2026-07-28 removed server-initiated requests, so there is nothing for one to answer"@),
            sink.subject_count() == old(sink).subject_count(),
            entry_seqs(sink.found()) == entry_seqs(old(sink).found()) + sites(events.take(i as int), f),
        decreases n - i,
    {
        proof { lemma_sites_take(events, f, i as int); }
        let event = context.event(i);
        if event.direction == Direction::ClientToServer && event.transport == TransportKind::StreamableHttp {
            if let Some(p) = event.message_payload() {
                if p.get("id").is_some() && p.get("method").is_none()
                    && (p.get("result").is_some() || p.get("error").is_some()) {
                    sink.push(Some(event.seq), owned(
                        "client sent a JSON-RPC response; 2026-07-28 removed server-initiated requests, so there is nothing for one to answer"));
                }
            }
        }
        i = i + 1;
    }
    proof { lemma_sites_all(events, f); }
}

/// A server message carrying both a string `method` and a non-null `id`.
pub open spec fn server_request_site(e: TraceEvent) -> Seq<Option<u64>> {
    if e.direction == Direction::ServerToClient && e.payload() is Some
        && payload_method(e.payload().unwrap()) is Some
        && (e.payload().unwrap().at("id"@) matches Some(id) && !(id is Null)) {
        seq![Some(e.seq)]
    } else {
        Seq::empty()
    }
}

/// The finding, as (seq, sentence), of a server message carrying both a string
/// `method` and a non-null `id`.
pub open spec fn server_request_entry(e: TraceEvent) -> Seq<(Option<u64>, Seq<char>)> {
    if server_request_site(e).len() > 0 {
        seq![(Some(e.seq), "server sent an independent request `"@ + payload_method(e.payload().unwrap()).unwrap()
            + "`; 2026-07-28 replaces server-initiated requests with MRTR input requests"@)]
    } else {
        Seq::empty()
    }
}

/// `TRAN-066`: the server sends no independent requests: what it needs from a
/// client it asks for inside the result of the client's own request.
pub fn no_independent_server_requests(context: &TraceContext<'_>, sink: &mut FindingSink)
    ensures
        final(sink).check_id() == old(sink).check_id(),
        final(sink).subject_count() == old(sink).subject_count(),
        entry_seqs(final(sink).found()) == entry_seqs(old(sink).found())
            + sites(context.trace(), |e: TraceEvent| server_request_site(e)),
        entry_views(final(sink).found()) == entry_views(old(sink).found())
            + entries(context.trace(), |e: TraceEvent| server_request_entry(e)),
{
    let ghost events = context.trace();
    let ghost f = |e: TraceEvent| server_request_site(e);
    let ghost h = |e: TraceEvent| server_request_entry(e);
    let n = context.len();
    let mut i: usize = 0;
    while i < n
        invariant
            n == events.len(),
            events == context.trace(),
            i <= n,
            f == (|e: TraceEvent| server_request_site(e)),
            h == (|e: TraceEvent| server_request_entry(e)),
            sink.check_id() == old(sink).check_id(),
            sink.subject_count() == old(sink).subject_count(),
            entry_seqs(sink.found()) == entry_seqs(old(sink).found()) + sites(events.take(i as int), f),
            entry_views(sink.found()) == entry_views(old(sink).found()) + entries(events.take(i as int), h),
        decreases n - i,
    {
        proof { lemma_sites_take(events, f, i as int); lemma_entries_take(events, h, i as int); }
        let event = context.event(i);
        if event.direction == Direction::ServerToClient {
            if let Some(p) = event.message_payload() {
                let method = match p.get("method") {
                    Some(m) => m.as_str(),
                    None => None,
                };
                let has_id = match p.get("id") {
                    Some(id) => !id.is_null(),
                    None => false,
                };
                if let Some(method) = method {
                    if has_id {
                        let mut d = owned("server sent an independent request `");
                        push_text(&mut d, method);
                        push_text(&mut d, "`; 2026-07-28 replaces server-initiated requests with MRTR input requests");
                        sink.push(Some(event.seq), d);
                    }
                }
            }
        }
        i = i + 1;
    }
    proof { lemma_sites_all(events, f); lemma_entries_all(events, h); }
}

/// An SSE response without `X-Accel-Buffering: no`.
pub open spec fn buffering_site(e: TraceEvent) -> Seq<Option<u64>> {
    if e.direction == Direction::ServerToClient && e.body is Http
        && (header_value(http_headers(e), "content-type"@) matches Some(ct)
            && "text/event-stream"@.len() <= ct.len()
            && ct.take("text/event-stream"@.len() as int) == "text/event-stream"@)
        && header_value(http_headers(e), "x-accel-buffering"@) != Some("no"@) {
        seq![Some(e.seq)]
    } else {
        Seq::empty()
    }
}

/// `TRAN-068`: an SSE response carries `X-Accel-Buffering: no`.
pub fn accel_buffering_header(context: &TraceContext<'_>, sink: &mut FindingSink)
    ensures
        final(sink).check_id() == old(sink).check_id(),
        crate::checks::extends_with(old(sink).found(), final(sink).found(), "SSE response does not carry `X-Accel-Buffering: no`"@),
        final(sink).subject_count() == old(sink).subject_count(),
        entry_seqs(final(sink).found()) == entry_seqs(old(sink).found())
            + sites(context.trace(), |e: TraceEvent| buffering_site(e)),
{
    let ghost events = context.trace();
    let ghost f = |e: TraceEvent| buffering_site(e);
    let n = context.len();
    let mut i: usize = 0;
    proof { reveal_strlit("text/event-stream"); reveal_strlit("no"); }
    while i < n
        invariant
            n == events.len(),
            events == context.trace(),
            i <= n,
            f == (|e: TraceEvent| buffering_site(e)),
            sink.check_id() == old(sink).check_id(),
            crate::checks::extends_with(old(sink).found(), sink.found(), "SSE response does not carry `X-Accel-Buffering: no`"@),
            sink.subject_count() == old(sink).subject_count(),
            entry_seqs(sink.found()) == entry_seqs(old(sink).found()) + sites(events.take(i as int), f),
        decreases n - i,
    {
        proof { lemma_sites_take(events, f, i as int); }
        let event = context.event(i);
        if event.direction == Direction::ServerToClient {
            if let EventBody::Http { headers, .. } = &event.body {
                let sse = match get_header(headers, "content-type") {
                    Some(v) => starts_with(v.as_str(), "text/event-stream"),
                    None => false,
                };
                let unbuffered = match get_header(headers, "x-accel-buffering") {
                    Some(v) => text_eq(v.as_str(), "no"),
                    None => false,
                };
                if sse && !unbuffered {
                    sink.push(Some(event.seq), owned("SSE response does not carry `X-Accel-Buffering: no`"));
                }
            }
        }
        i = i + 1;
    }
    proof { lemma_sites_all(events, f); }
}

/// Whether `e` is the recorded form of a response stream closing: a transport
/// close or abort on Streamable HTTP.
pub open spec fn is_cancellation(e: TraceEvent) -> bool {
    e.transport == TransportKind::StreamableHttp && match e.body {
        EventBody::Lifecycle { event } => event == LifecycleEvent::TransportClose || event == LifecycleEvent::TransportAbort,
        _ => false,
    }
}

/// The non-null `id` text of a message, when it has one.
pub open spec fn live_id(e: TraceEvent) -> Option<Seq<char>> {
    match e.payload() {
        Some(p) => match p.at("id"@) {
            Some(id) => if id is Null { None } else { Some(json_text(id)) },
            None => None,
        },
        None => None,
    }
}

/// The cancellation walk: ids in flight, the close (once seen), and findings.
pub struct CancelWalk {
    pub outstanding: Seq<Seq<char>>,
    pub closed: Option<u64>,
    pub found: Seq<Option<u64>>,
}

/// One step: before the close, a request opens its id and an answer closes
/// it; after it, a server message for an id still in flight is the finding.
pub open spec fn cancel_step(w: CancelWalk, e: TraceEvent) -> CancelWalk {
    match w.closed {
        Some(_) => if e.direction == Direction::ServerToClient && (live_id(e) matches Some(t) && w.outstanding.contains(t)) {
            CancelWalk { found: w.found.push(Some(e.seq)), ..w }
        } else {
            w
        },
        None => if is_cancellation(e) {
            CancelWalk { closed: Some(e.seq), ..w }
        } else {
            match live_id(e) {
                Some(t) => if e.payload().unwrap().at("method"@) is Some {
                    CancelWalk { outstanding: if w.outstanding.contains(t) { w.outstanding } else { w.outstanding.push(t) }, ..w }
                } else {
                    CancelWalk { outstanding: drop_text(w.outstanding, t), ..w }
                },
                None => w,
            }
        },
    }
}

/// The walk over the first `n` events.
pub open spec fn cancel_walk(events: Seq<TraceEvent>, n: nat) -> CancelWalk
    decreases n,
{
    if n == 0 {
        CancelWalk { outstanding: Seq::empty(), closed: None, found: Seq::empty() }
    } else {
        cancel_step(cancel_walk(events, (n - 1) as nat), events[n - 1])
    }
}

/// `s` without any occurrence of `t`.
pub open spec fn drop_text(s: Seq<Seq<char>>, t: Seq<char>) -> Seq<Seq<char>>
    decreases s.len(),
{
    if s.len() == 0 {
        s
    } else if s.last() == t {
        drop_text(s.drop_last(), t)
    } else {
        drop_text(s.drop_last(), t).push(s.last())
    }
}

fn without(list: &Vec<String>, t: &str) -> (r: Vec<String>)
    ensures
        texts(r@) == drop_text(texts(list@), t@),
{
    let mut out: Vec<String> = Vec::new();
    let mut i: usize = 0;
    while i < list.len()
        invariant
            i <= list@.len(),
            texts(out@) == drop_text(texts(list@.take(i as int)), t@),
        decreases list@.len() - i,
    {
        proof {
            assert(texts(list@.take(i + 1)) =~= texts(list@.take(i as int)).push(list@[i as int]@));
            assert(texts(list@.take(i + 1)).drop_last() =~= texts(list@.take(i as int)));
        }
        if !text_eq(list[i].as_str(), t) {
            let ghost prev = out@;
            let o = owned(list[i].as_str());
            out.push(o);
            assert(texts(out@) =~= texts(prev).push(list@[i as int]@));
        }
        i = i + 1;
    }
    assert(list@.take(list@.len() as int) =~= list@);
    out
}

/// `TRAN-070`: nothing further is sent for a request whose stream was closed:
/// closing a request's SSE stream is the cancellation signal at this
/// revision. Judged only against ids still outstanding when it happened.
pub fn no_messages_after_cancellation(context: &TraceContext<'_>, sink: &mut FindingSink)
    ensures
        final(sink).check_id() == old(sink).check_id(),
        final(sink).subject_count() == old(sink).subject_count(),
        entry_seqs(final(sink).found()) == entry_seqs(old(sink).found())
            + cancel_walk(context.trace(), context.trace().len() as nat).found,
{
    let ghost events = context.trace();
    let n = context.len();
    let mut outstanding: Vec<String> = Vec::new();
    let mut closed_at: Option<u64> = None;
    let mut i: usize = 0;
    while i < n
        invariant
            n == events.len(),
            events == context.trace(),
            i <= n,
            texts(outstanding@) == cancel_walk(events, i as nat).outstanding,
            closed_at == cancel_walk(events, i as nat).closed,
            sink.check_id() == old(sink).check_id(),
            sink.subject_count() == old(sink).subject_count(),
            entry_seqs(sink.found()) == entry_seqs(old(sink).found()) + cancel_walk(events, i as nat).found,
        decreases n - i,
    {
        let event = context.event(i);
        let id: Option<String> = match event.message_payload() {
            Some(p) => match p.get("id") {
                Some(id) => if id.is_null() { None } else { Some(id.to_text()) },
                None => None,
            },
            None => None,
        };
        match closed_at {
            Some(at) => {
                if event.direction == Direction::ServerToClient {
                    if let Some(t) = &id {
                        if contains_text(&outstanding, t.as_str()) {
                            let mut d = owned("server sent a further message for request id ");
                            push_text(&mut d, t.as_str());
                            push_text(&mut d, ", whose response stream closed at seq ");
                            let s = u64_text(at);
                            push_text(&mut d, s.as_str());
                            push_text(&mut d, "; a close is cancellation at this revision");
                            sink.push(Some(event.seq), d);
                        }
                    }
                }
            },
            None => {
                let cancelled = event.transport == TransportKind::StreamableHttp && match &event.body {
                    EventBody::Lifecycle { event: kind } => *kind == LifecycleEvent::TransportClose
                        || *kind == LifecycleEvent::TransportAbort,
                    _ => false,
                };
                if cancelled {
                    closed_at = Some(event.seq);
                } else if let Some(t) = id {
                    let is_request = event.message_payload().unwrap().get("method").is_some();
                    if is_request {
                        if !contains_text(&outstanding, t.as_str()) {
                            let ghost prev = outstanding@;
                            let ghost tv = t@;
                            outstanding.push(t);
                            assert(texts(outstanding@) =~= texts(prev).push(tv));
                        }
                    } else {
                        outstanding = without(&outstanding, t.as_str());
                    }
                }
            },
        }
        i = i + 1;
    }
}

} // verus!
