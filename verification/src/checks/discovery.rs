//! `2026-07-28` discovery checks (`server/discover`).

use vstd::prelude::*;
use crate::checks::{FindingSink, entry_seqs};
use crate::checks::sites::{sites, lemma_sites_take, lemma_sites_all};
use crate::context::TraceContext;
use crate::json::{Json, json_text};
use crate::message::{MessageKind, Tag, spec_tag};
use crate::text::{owned, push_text, text_eq, texts, contains_text};
use crate::trace::{Direction, TraceEvent};

verus! {

/// The method of a request event, when it is one.
pub open spec fn request_method(e: TraceEvent) -> Option<Seq<char>> {
    match e.payload() {
        Some(p) => if spec_tag(p) == Tag::Request { p.at("method"@).unwrap().text() } else { None },
        None => None,
    }
}

/// Whether `e` is a client `server/discover` request.
pub open spec fn is_probe(e: TraceEvent) -> bool {
    e.direction == Direction::ClientToServer && request_method(e) == Some("server/discover"@)
}

/// The id text of a message event that carries an `id`.
pub open spec fn id_text(e: TraceEvent) -> Seq<char> {
    json_text(e.payload().unwrap().at("id"@).unwrap())
}

/// The id texts of the probes in `events`, in order.
pub open spec fn probe_list(events: Seq<TraceEvent>) -> Seq<Seq<char>>
    decreases events.len(),
{
    if events.len() == 0 {
        Seq::empty()
    } else if is_probe(events.last()) {
        probe_list(events.drop_last()).push(id_text(events.last()))
    } else {
        probe_list(events.drop_last())
    }
}

/// Whether some probe in `events` used the id whose text is `t`.
pub open spec fn probed(events: Seq<TraceEvent>, t: Seq<char>) -> bool {
    probe_list(events).contains(t)
}

/// A `-32601` from the server answering a probe's id.
pub open spec fn implemented_site(events: Seq<TraceEvent>, e: TraceEvent) -> Seq<Option<u64>> {
    match e.payload() {
        Some(p) => if e.direction == Direction::ServerToClient && spec_tag(p) == Tag::Error
            && p.at("id"@) is Some && probed(events, json_text(p.at("id"@).unwrap()))
            && (p.at("error"@).unwrap().at("code"@) matches Some(c) && c.int_value() == Some(-32601int)) {
            seq![Some(e.seq)]
        } else {
            Seq::empty()
        },
        None => Seq::empty(),
    }
}

/// The id texts of every probe in the trace.
fn probe_ids(context: &TraceContext<'_>) -> (r: Vec<String>)
    ensures
        texts(r@) == probe_list(context.trace()),
{
    let ghost events = context.trace();
    let mut out: Vec<String> = Vec::new();
    let n = context.len();
    let mut i: usize = 0;
    while i < n
        invariant
            n == events.len(),
            events == context.trace(),
            i <= n,
            texts(out@) == probe_list(events.take(i as int)),
        decreases n - i,
    {
        let event = context.event(i);
        proof {
            reveal_strlit("server/discover");
            assert(events.take(i + 1).drop_last() =~= events.take(i as int));
        }
        if event.direction == Direction::ClientToServer {
            if let Some(MessageKind::Request { method, id }) = context.kind(i) {
                if text_eq(method, "server/discover") {
                    out.push(id.to_text());
                }
            }
        }
        assert(texts(out@) =~= probe_list(events.take(i + 1)));
        i = i + 1;
    }
    assert(events.take(n as int) =~= events);
    out
}

/// `DISC-001`: servers implement `server/discover`: a `-32601` answering a
/// client's probe is the violation; other errors, and sessions that never
/// probe, say nothing either way.
pub fn implemented(context: &TraceContext<'_>, sink: &mut FindingSink)
    ensures
        final(sink).check_id() == old(sink).check_id(),
        crate::checks::extends_with(old(sink).found(), final(sink).found(), "`server/discover` was answered with -32601 (method not found); 2026-07-28 servers must implement it"@),
        final(sink).subject_count() == old(sink).subject_count(),
        entry_seqs(final(sink).found()) == entry_seqs(old(sink).found())
            + sites(context.trace(), |e: TraceEvent| implemented_site(context.trace(), e)),
{
    let ghost events = context.trace();
    let ghost f = |e: TraceEvent| implemented_site(events, e);
    let probes = probe_ids(context);
    let n = context.len();
    let mut i: usize = 0;
    while i < n
        invariant
            n == events.len(),
            events == context.trace(),
            i <= n,
            f == (|e: TraceEvent| implemented_site(events, e)),
            texts(probes@) == probe_list(events),
            sink.check_id() == old(sink).check_id(),
            crate::checks::extends_with(old(sink).found(), sink.found(), "`server/discover` was answered with -32601 (method not found); 2026-07-28 servers must implement it"@),
            sink.subject_count() == old(sink).subject_count(),
            entry_seqs(sink.found()) == entry_seqs(old(sink).found()) + sites(events.take(i as int), f),
        decreases n - i,
    {
        let event = context.event(i);
        proof { lemma_sites_take(events, f, i as int); }
        if event.direction == Direction::ServerToClient {
            if let Some(MessageKind::Error { id: Some(id), error }) = context.kind(i) {
                let text = id.to_text();
                if contains_text(&probes, text.as_str()) {
                    let code = match error.get("code") {
                        Some(c) => c.as_i64(),
                        None => None,
                    };
                    if code == Some(-32601i64) {
                        sink.push(Some(event.seq), owned(
                            "`server/discover` was answered with -32601 (method not found); 2026-07-28 servers must implement it"));
                    }
                }
            }
        }
        i = i + 1;
    }
    proof { lemma_sites_all(events, f); }
}

/// Whether `e` is a client request.
pub open spec fn is_client_request(e: TraceEvent) -> bool {
    e.direction == Direction::ClientToServer && request_method(e) is Some
}

/// Whether `e` is a client request declaring a modern protocol version in its
/// `_meta`.
pub open spec fn declares_modern(e: TraceEvent) -> bool {
    &&& is_client_request(e)
    &&& e.payload().unwrap().at("params"@) matches Some(params)
    &&& params.at("_meta"@) matches Some(meta)
    &&& meta.at("io.modelcontextprotocol/protocolVersion"@) is Some
}

/// The index of the client's first request.
pub open spec fn first_client_request(events: Seq<TraceEvent>) -> Option<int>
    decreases events.len(),
{
    if events.len() == 0 {
        None
    } else {
        match first_client_request(events.drop_last()) {
            Some(k) => Some(k),
            None => if is_client_request(events.last()) { Some(events.len() - 1) } else { None },
        }
    }
}

/// Whether some client request in `events` satisfies `f`.
pub open spec fn any_event(events: Seq<TraceEvent>, f: spec_fn(TraceEvent) -> bool) -> bool
    decreases events.len(),
{
    if events.len() == 0 {
        false
    } else {
        any_event(events.drop_last(), f) || f(events.last())
    }
}

/// The probe-first finding: when the session shows both eras (an `initialize`
/// request and a modern `_meta` version), the client's first request must have
/// been `server/discover`.
pub open spec fn probe_first_sites(events: Seq<TraceEvent>) -> Seq<Option<u64>> {
    match first_client_request(events) {
        Some(k) => if any_event(events, |e: TraceEvent| is_client_request(e) && request_method(e) == Some("initialize"@))
            && any_event(events, |e: TraceEvent| declares_modern(e))
            && request_method(events[k]) != Some("server/discover"@) {
            seq![Some(events[k].seq)]
        } else {
            Seq::empty()
        },
        None => Seq::empty(),
    }
}

proof fn lemma_first_client_request_bound(events: Seq<TraceEvent>)
    ensures
        first_client_request(events) matches Some(k) ==> 0 <= k < events.len() && is_client_request(events[k]),
    decreases events.len(),
{
    if events.len() > 0 {
        lemma_first_client_request_bound(events.drop_last());
    }
}

/// `DISC-002`: a client that speaks both eras probes with `server/discover`
/// before any other request.
pub fn dual_era_probe_first(context: &TraceContext<'_>, sink: &mut FindingSink)
    ensures
        final(sink).check_id() == old(sink).check_id(),
        final(sink).subject_count() == old(sink).subject_count(),
        entry_seqs(final(sink).found()) == entry_seqs(old(sink).found()) + probe_first_sites(context.trace()),
{
    let ghost events = context.trace();
    let ghost legacy_f = |e: TraceEvent| is_client_request(e) && request_method(e) == Some("initialize"@);
    let ghost modern_f = |e: TraceEvent| declares_modern(e);
    let mut first: Option<(u64, &str)> = None;
    let mut legacy = false;
    let mut modern = false;
    let n = context.len();
    let mut i: usize = 0;
    proof {
        reveal_strlit("initialize");
        reveal_strlit("server/discover");
    }
    while i < n
        invariant
            n == events.len(),
            events == context.trace(),
            i <= n,
            legacy_f == (|e: TraceEvent| is_client_request(e) && request_method(e) == Some("initialize"@)),
            modern_f == (|e: TraceEvent| declares_modern(e)),
            legacy == any_event(events.take(i as int), legacy_f),
            modern == any_event(events.take(i as int), modern_f),
            match first_client_request(events.take(i as int)) {
                Some(k) => first matches Some((seq, method)) && 0 <= k < i && seq == events[k].seq
                    && request_method(events[k]) == Some(method@),
                None => first is None,
            },
        decreases n - i,
    {
        let event = context.event(i);
        proof {
            assert(events.take(i + 1).drop_last() =~= events.take(i as int));
            assert(events.take(i + 1).last() == events[i as int]);
        }
        if event.direction == Direction::ClientToServer {
            if let Some(MessageKind::Request { method, .. }) = context.kind(i) {
                if first.is_none() {
                    first = Some((event.seq, *method));
                }
                if text_eq(method, "initialize") {
                    legacy = true;
                }
                let payload = event.message_payload().unwrap();
                let declared = match payload.get("params") {
                    Some(params) => match params.get("_meta") {
                        Some(meta) => meta.get("io.modelcontextprotocol/protocolVersion").is_some(),
                        None => false,
                    },
                    None => false,
                };
                if declared {
                    modern = true;
                }
            }
        }
        i = i + 1;
    }
    proof {
        assert(events.take(n as int) =~= events);
        lemma_first_client_request_bound(events);
    }
    if let Some((seq, method)) = first {
        if legacy && modern && !text_eq(method, "server/discover") {
            let mut d = owned("the client's first request is `");
            push_text(&mut d, method);
            push_text(&mut d, "`, but this session shows both eras (an `initialize` request and a modern `_meta` protocol version), so it should have probed with `server/discover` first");
            sink.push(Some(seq), d);
        }
    }
}

} // verus!
