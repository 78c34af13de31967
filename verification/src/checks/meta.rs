//! `2026-07-28` `_meta`-envelope checks.
//!
//! The stateless rework moves per-session context onto every request, so these
//! read `params._meta` and `result._meta` and correlate a request with the
//! answer it drew. Each reports only what a recorded session shows.

use vstd::prelude::*;
use crate::checks::after_counting;
use crate::checks::sites::{entries, lemma_entries_take, lemma_entries_all, lemma_entries_none, lemma_tally_none, tally, xtally, lemma_tally_take, lemma_xtally_take, lemma_tally_all, lemma_xtally_all};
use crate::checks::{FindingSink, entry_seqs, entry_views};
use crate::checks::sites::{sites, lemma_sites_take, lemma_sites_all};
use crate::checks::discovery::any_event;
use crate::checks::support::{meta_member, get_meta_member, status_before, http_status_for};
use crate::context::TraceContext;
use crate::json::{Json, json_text};
use crate::text::{signed_decimal, decimal, owned, push_text, text_eq, starts_with, i64_text, u64_text};
use crate::trace::{Direction, TraceEvent};

verus! {

/// Whether `e` is a client message naming a method (a request or a
/// notification).
pub open spec fn carries_method(e: TraceEvent) -> bool {
    &&& e.direction == Direction::ClientToServer
    &&& e.payload() matches Some(p)
    &&& p.at("method"@) is Some
}

/// Whether a payload's `_meta` has the member `field`.
pub open spec fn has_meta(p: Json, field: Seq<char>) -> bool {
    meta_member(p, field) is Some
}

/// The two fields every `2026-07-28` client request carries in `_meta`.
pub open spec fn envelope_complete(p: Json) -> bool {
    has_meta(p, "io.modelcontextprotocol/protocolVersion"@)
        && has_meta(p, "io.modelcontextprotocol/clientCapabilities"@)
}

/// One finding per required `_meta` field a client request lacks.
pub open spec fn required_fields_site(e: TraceEvent) -> Seq<Option<u64>> {
    if carries_method(e) && e.payload().unwrap().at("id"@) is Some {
        let p = e.payload().unwrap();
        (if !has_meta(p, "io.modelcontextprotocol/protocolVersion"@) { seq![Some(e.seq)] } else { Seq::empty() })
            + (if !has_meta(p, "io.modelcontextprotocol/clientCapabilities"@) { seq![Some(e.seq)] } else { Seq::empty() })
    } else {
        Seq::empty()
    }
}

/// The findings, as (seq, sentence), of a client request missing required
/// `_meta` fields.
pub open spec fn required_fields_entry(e: TraceEvent) -> Seq<(Option<u64>, Seq<char>)> {
    if carries_method(e) && e.payload().unwrap().at("id"@) is Some {
        let p = e.payload().unwrap();
        (if !has_meta(p, "io.modelcontextprotocol/protocolVersion"@) {
            seq![(Some(e.seq), "request `_meta` is missing required field `io.modelcontextprotocol/protocolVersion`"@)]
        } else {
            Seq::empty()
        }) + (if !has_meta(p, "io.modelcontextprotocol/clientCapabilities"@) {
            seq![(Some(e.seq), "request `_meta` is missing required field `io.modelcontextprotocol/clientCapabilities`"@)]
        } else {
            Seq::empty()
        })
    } else {
        Seq::empty()
    }
}

/// One subject per client request (a message naming a method, with an id).
pub open spec fn request_subject(e: TraceEvent) -> nat {
    if carries_method(e) && e.payload().unwrap().at("id"@) is Some { 1 } else { 0 }
}

/// The payload of a client message naming a method, when `i` holds one.
fn client_request<'a>(context: &TraceContext<'a>, i: usize) -> (r: Option<&'a Json>)
    requires
        i < context.trace().len(),
    ensures
        match r {
            Some(p) => carries_method(context.trace()[i as int]) && context.trace()[i as int].payload() == Some(*p),
            None => !carries_method(context.trace()[i as int]),
        },
{
    let event = context.event(i);
    if event.direction != Direction::ClientToServer {
        return None;
    }
    match event.message_payload() {
        Some(p) => if p.get("method").is_some() { Some(p) } else { None },
        None => None,
    }
}

/// `BASE-030`: every client request carries the required
/// `io.modelcontextprotocol/*` fields in `_meta`. Notifications are excluded.
pub fn required_request_fields(context: &TraceContext<'_>, sink: &mut FindingSink)
    ensures
        final(sink).check_id() == old(sink).check_id(),
        final(sink).subject_count() == after_counting(old(sink).subject_count(),
            tally(context.trace(), |e: TraceEvent| request_subject(e)) as int),
        entry_seqs(final(sink).found()) == entry_seqs(old(sink).found())
            + sites(context.trace(), |e: TraceEvent| required_fields_site(e)),
        entry_views(final(sink).found()) == entry_views(old(sink).found())
            + entries(context.trace(), |e: TraceEvent| required_fields_entry(e)),
{
    sink.examined_many(0);
    let ghost events = context.trace();
    let ghost f = |e: TraceEvent| required_fields_site(e);
    let ghost h = |e: TraceEvent| required_fields_entry(e);
    let n = context.len();
    let ghost g = |e: TraceEvent| request_subject(e);
    let mut i: usize = 0;
    while i < n
        invariant
            n == events.len(),
            events == context.trace(),
            i <= n,
            f == (|e: TraceEvent| required_fields_site(e)),
            h == (|e: TraceEvent| required_fields_entry(e)),
            sink.check_id() == old(sink).check_id(),
            g == (|e: TraceEvent| request_subject(e)),
            sink.subject_count() == after_counting(old(sink).subject_count(), tally(events.take(i as int), g) as int),
            entry_seqs(sink.found()) == entry_seqs(old(sink).found()) + sites(events.take(i as int), f),
            entry_views(sink.found()) == entry_views(old(sink).found()) + entries(events.take(i as int), h),
        decreases n - i,
    {
        proof { lemma_sites_take(events, f, i as int); lemma_entries_take(events, h, i as int); lemma_tally_take(events, g, i as int); }
        if let Some(payload) = client_request(context, i) {
            if payload.get("id").is_some() {
                let seq = context.event(i).seq;
                let ghost before = entry_seqs(sink.found());
                let ghost before_views = entry_views(sink.found());
                sink.examined();
                if get_meta_member(payload, "io.modelcontextprotocol/protocolVersion").is_none() {
                    sink.push(Some(seq), owned(
                        "request `_meta` is missing required field `io.modelcontextprotocol/protocolVersion`"));
                }
                if get_meta_member(payload, "io.modelcontextprotocol/clientCapabilities").is_none() {
                    sink.push(Some(seq), owned(
                        "request `_meta` is missing required field `io.modelcontextprotocol/clientCapabilities`"));
                }
                assert(entry_seqs(sink.found()) =~= before + required_fields_site(events[i as int]));
                assert(entry_views(sink.found()) =~= before_views + required_fields_entry(events[i as int]));
            }
        }
        i = i + 1;
    }
    proof { lemma_sites_all(events, f); lemma_entries_all(events, h); lemma_tally_all(events, g); }
}

/// A client request whose envelope is incomplete. The legacy `initialize` is
/// left out: at a modern server it is an unknown method as well, and the
/// specification leaves its code implementation-defined.
pub open spec fn is_malformed(e: TraceEvent) -> bool {
    &&& carries_method(e)
    &&& e.payload().unwrap().at("id"@) is Some
    &&& e.payload().unwrap().at("method"@).unwrap().text() != Some("initialize"@)
    &&& !envelope_complete(e.payload().unwrap())
}

/// The malformed requests of a trace, as (id text, seq), in order.
pub open spec fn malformed_list(events: Seq<TraceEvent>) -> Seq<(Seq<char>, u64)>
    decreases events.len(),
{
    if events.len() == 0 {
        Seq::empty()
    } else if is_malformed(events.last()) {
        malformed_list(events.drop_last()).push(
            (json_text(events.last().payload().unwrap().at("id"@).unwrap()), events.last().seq))
    } else {
        malformed_list(events.drop_last())
    }
}

/// The seq recorded last for id text `t`: a later request with the same id
/// supersedes an earlier one.
pub open spec fn last_seq_for(list: Seq<(Seq<char>, u64)>, t: Seq<char>) -> Option<u64>
    decreases list.len(),
{
    if list.len() == 0 {
        None
    } else if list.last().0 == t {
        Some(list.last().1)
    } else {
        last_seq_for(list.drop_last(), t)
    }
}

/// The views of (text, seq) pairs.
pub open spec fn seq_pairs(v: Seq<(String, u64)>) -> Seq<(Seq<char>, u64)> {
    v.map_values(|x: (String, u64)| (x.0@, x.1))
}

fn lookup_seq(list: &Vec<(String, u64)>, t: &str) -> (r: Option<u64>)
    ensures
        r == last_seq_for(seq_pairs(list@), t@),
{
    let ghost views = seq_pairs(list@);
    let mut i = list.len();
    assert(views.take(i as int) =~= views);
    while i > 0
        invariant
            i <= list@.len(),
            views == seq_pairs(list@),
            last_seq_for(views, t@) == last_seq_for(views.take(i as int), t@),
        decreases i,
    {
        i = i - 1;
        proof {
            assert(views.take(i + 1).drop_last() =~= views.take(i as int));
            assert(views.take(i + 1).last() == (list@[i as int].0@, list@[i as int].1));
        }
        if text_eq(list[i].0.as_str(), t) {
            return Some(list[i].1);
        }
    }
    None
}

fn malformed_requests(context: &TraceContext<'_>) -> (r: Vec<(String, u64)>)
    ensures
        seq_pairs(r@) == malformed_list(context.trace()),
{
    let ghost events = context.trace();
    let n = context.len();
    let mut out: Vec<(String, u64)> = Vec::new();
    let mut i: usize = 0;
    proof { reveal_strlit("initialize"); }
    while i < n
        invariant
            n == events.len(),
            events == context.trace(),
            i <= n,
            seq_pairs(out@) == malformed_list(events.take(i as int)),
        decreases n - i,
    {
        proof { assert(events.take(i + 1).drop_last() =~= events.take(i as int)); }
        if let Some(payload) = client_request(context, i) {
            if let Some(id) = payload.get("id") {
                let legacy = match payload.get("method") {
                    Some(m) => match m.as_str() {
                        Some(name) => text_eq(name, "initialize"),
                        None => false,
                    },
                    None => false,
                };
                let complete = get_meta_member(payload, "io.modelcontextprotocol/protocolVersion").is_some()
                    && get_meta_member(payload, "io.modelcontextprotocol/clientCapabilities").is_some();
                if !legacy && !complete {
                    out.push((id.to_text(), context.event(i).seq));
                }
            }
        }
        assert(seq_pairs(out@) =~= malformed_list(events.take(i + 1)));
        i = i + 1;
    }
    assert(events.take(n as int) =~= events);
    out
}

/// The `error.code` member of a payload.
pub open spec fn error_code_member(p: Json) -> Option<Json> {
    match p.at("error"@) {
        Some(err) => err.at("code"@),
        None => None,
    }
}

/// Whether a payload's `error.code` is the 64-bit integer `code`.
pub open spec fn has_code(p: Json, code: int) -> bool {
    error_code_member(p) matches Some(c) && c.int_value() == Some(code)
}

/// The server's answer to a malformed request, when it is not `-32602`.
pub open spec fn unrejected_site(events: Seq<TraceEvent>, e: TraceEvent) -> Seq<Option<u64>> {
    if e.direction == Direction::ServerToClient && e.payload() is Some
        && e.payload().unwrap().at("id"@) is Some
        && last_seq_for(malformed_list(events), json_text(e.payload().unwrap().at("id"@).unwrap())) is Some
        && !has_code(e.payload().unwrap(), -32602) {
        seq![Some(e.seq)]
    } else {
        Seq::empty()
    }
}

/// The finding, as (seq, sentence), of the server's answer to a malformed
/// request, when it is not `-32602`.
pub open spec fn unrejected_entry(events: Seq<TraceEvent>, e: TraceEvent) -> Seq<(Option<u64>, Seq<char>)> {
    if unrejected_site(events, e).len() > 0 {
        let p = e.payload().unwrap();
        let request_seq = last_seq_for(malformed_list(events), json_text(p.at("id"@).unwrap())).unwrap();
        let prefix = "request at seq "@ + crate::text::decimal(request_seq as nat)
            + " was missing a required `_meta` field; the server answered with "@;
        match error_code_member(p) {
            Some(c) => seq![(Some(e.seq), prefix + "error code "@ + json_text(c) + " rather than -32602"@)],
            None => seq![(Some(e.seq), prefix + "a result rather than error -32602"@)],
        }
    } else {
        Seq::empty()
    }
}

/// One subject per server answer to a malformed request.
pub open spec fn unrejected_subject(events: Seq<TraceEvent>, e: TraceEvent) -> nat {
    if e.direction == Direction::ServerToClient && e.payload() is Some
        && e.payload().unwrap().at("id"@) is Some
        && last_seq_for(malformed_list(events), json_text(e.payload().unwrap().at("id"@).unwrap())) is Some { 1 } else { 0 }
}

/// `BASE-031`: a request missing a required `_meta` field must draw `-32602`.
/// An answer that is a result, or another error code, is the finding; a
/// request left unanswered in the recording settles nothing.
pub fn missing_required_field_rejected(context: &TraceContext<'_>, sink: &mut FindingSink)
    ensures
        final(sink).check_id() == old(sink).check_id(),
        final(sink).subject_count() == after_counting(old(sink).subject_count(),
            tally(context.trace(), |e: TraceEvent| unrejected_subject(context.trace(), e)) as int),
        entry_seqs(final(sink).found()) == entry_seqs(old(sink).found())
            + sites(context.trace(), |e: TraceEvent| unrejected_site(context.trace(), e)),
        entry_views(final(sink).found()) == entry_views(old(sink).found())
            + entries(context.trace(), |e: TraceEvent| unrejected_entry(context.trace(), e)),
{
    sink.examined_many(0);
    let ghost events = context.trace();
    let ghost f = |e: TraceEvent| unrejected_site(events, e);
    let ghost h = |e: TraceEvent| unrejected_entry(events, e);
    let malformed = malformed_requests(context);
    let n = context.len();
    let ghost g = |e: TraceEvent| unrejected_subject(events, e);
    let mut i: usize = 0;
    while i < n
        invariant
            n == events.len(),
            events == context.trace(),
            i <= n,
            seq_pairs(malformed@) == malformed_list(events),
            f == (|e: TraceEvent| unrejected_site(events, e)),
            h == (|e: TraceEvent| unrejected_entry(events, e)),
            sink.check_id() == old(sink).check_id(),
            g == (|e: TraceEvent| unrejected_subject(events, e)),
            sink.subject_count() == after_counting(old(sink).subject_count(), tally(events.take(i as int), g) as int),
            entry_seqs(sink.found()) == entry_seqs(old(sink).found()) + sites(events.take(i as int), f),
            entry_views(sink.found()) == entry_views(old(sink).found()) + entries(events.take(i as int), h),
        decreases n - i,
    {
        proof { lemma_sites_take(events, f, i as int); lemma_entries_take(events, h, i as int); lemma_tally_take(events, g, i as int); }
        let event = context.event(i);
        if event.direction == Direction::ServerToClient {
            if let Some(payload) = event.message_payload() {
                if let Some(id) = payload.get("id") {
                    let text = id.to_text();
                    if let Some(request_seq) = lookup_seq(&malformed, text.as_str()) {
                        sink.examined();
                        let code = match payload.get("error") {
                            Some(err) => err.get("code"),
                            None => None,
                        };
                        let mut d = owned("request at seq ");
                        let s = u64_text(request_seq);
                        push_text(&mut d, s.as_str());
                        push_text(&mut d, " was missing a required `_meta` field; the server answered with ");
                        match code {
                            Some(c) => {
                                if c.as_i64() != Some(-32602i64) {
                                    push_text(&mut d, "error code ");
                                    let shown = c.to_text();
                                    push_text(&mut d, shown.as_str());
                                    push_text(&mut d, " rather than -32602");
                                    sink.push(Some(event.seq), d);
                                }
                            },
                            None => {
                                push_text(&mut d, "a result rather than error -32602");
                                sink.push(Some(event.seq), d);
                            },
                        }
                    }
                }
            }
        }
        i = i + 1;
    }
    proof { lemma_sites_all(events, f); lemma_entries_all(events, h); lemma_tally_all(events, g); }
}

/// The status finding for a message at `seq`: the recorded response status,
/// when there is one and it is not `400`.
pub open spec fn non_400_site(events: Seq<TraceEvent>, seq: u64) -> Seq<Option<u64>> {
    match status_before(events, seq) {
        Some((s, status)) => if status != 400 { seq![Some(s)] } else { Seq::empty() },
        None => Seq::empty(),
    }
}

/// A server error with `code` that rode a non-`400`.
pub open spec fn status_error_site(events: Seq<TraceEvent>, code: int, e: TraceEvent) -> Seq<Option<u64>> {
    if e.direction == Direction::ServerToClient && e.payload() is Some && has_code(e.payload().unwrap(), code) {
        non_400_site(events, e.seq)
    } else {
        Seq::empty()
    }
}

/// One subject per server error carrying `code` with a recorded HTTP status.
pub open spec fn status_subject(events: Seq<TraceEvent>, code: int, e: TraceEvent) -> nat {
    if e.direction == Direction::ServerToClient && e.payload() is Some && has_code(e.payload().unwrap(), code)
        && status_before(events, e.seq) is Some { 1 } else { 0 }
}

/// The status finding, as (seq, sentence), of a server error with `code` that
/// rode a non-`400`; `clause` names what the error answers.
pub open spec fn status_error_entry(events: Seq<TraceEvent>, code: int, e: TraceEvent, clause: Seq<char>)
    -> Seq<(Option<u64>, Seq<char>)>
{
    if e.direction == Direction::ServerToClient && e.payload() is Some && has_code(e.payload().unwrap(), code) {
        match status_before(events, e.seq) {
            Some((s, status)) => if status != 400 {
                seq![(Some(s), clause + ": error "@ + signed_decimal(code) + " was returned with HTTP "@
                    + decimal(status as nat) + ", not 400"@)]
            } else {
                Seq::empty()
            },
            None => Seq::empty(),
        }
    } else {
        Seq::empty()
    }
}

/// Reports every server error carrying `code` whose HTTP response status is not
/// `400`. Judged only where the recording carries HTTP framing.
fn http_status_for_error(context: &TraceContext<'_>, sink: &mut FindingSink, code: i64, clause: &str)
    ensures
        final(sink).check_id() == old(sink).check_id(),
        final(sink).subject_count() == after_counting(old(sink).subject_count(),
            tally(context.trace(), |e: TraceEvent| status_subject(context.trace(), code as int, e)) as int),
        entry_seqs(final(sink).found()) == entry_seqs(old(sink).found()) + sites(context.trace(),
            |e: TraceEvent| status_error_site(context.trace(), code as int, e)),
        entry_views(final(sink).found()) == entry_views(old(sink).found()) + entries(context.trace(),
            |e: TraceEvent| status_error_entry(context.trace(), code as int, e, clause@)),
{
    sink.examined_many(0);
    let ghost events = context.trace();
    let ghost f = |e: TraceEvent| status_error_site(events, code as int, e);
    let ghost h = |e: TraceEvent| status_error_entry(events, code as int, e, clause@);
    let n = context.len();
    let ghost g = |e: TraceEvent| status_subject(events, code as int, e);
    let mut i: usize = 0;
    while i < n
        invariant
            n == events.len(),
            events == context.trace(),
            i <= n,
            f == (|e: TraceEvent| status_error_site(events, code as int, e)),
            h == (|e: TraceEvent| status_error_entry(events, code as int, e, clause@)),
            sink.check_id() == old(sink).check_id(),
            g == (|e: TraceEvent| status_subject(events, code as int, e)),
            sink.subject_count() == after_counting(old(sink).subject_count(), tally(events.take(i as int), g) as int),
            entry_seqs(sink.found()) == entry_seqs(old(sink).found()) + sites(events.take(i as int), f),
            entry_views(sink.found()) == entry_views(old(sink).found()) + entries(events.take(i as int), h),
        decreases n - i,
    {
        proof { lemma_sites_take(events, f, i as int); lemma_entries_take(events, h, i as int); lemma_tally_take(events, g, i as int); }
        let event = context.event(i);
        if event.direction == Direction::ServerToClient {
            if let Some(payload) = event.message_payload() {
                let found = match payload.get("error") {
                    Some(err) => match err.get("code") {
                        Some(c) => c.as_i64(),
                        None => None,
                    },
                    None => None,
                };
                if found == Some(code) {
                    if let Some((status_seq, status)) = http_status_for(context, event.seq) {
                        sink.examined();
                        if status != 400 {
                            let mut d = owned(clause);
                            push_text(&mut d, ": error ");
                            let c = i64_text(code);
                            push_text(&mut d, c.as_str());
                            push_text(&mut d, " was returned with HTTP ");
                            let st = u64_text(status as u64);
                            push_text(&mut d, st.as_str());
                            push_text(&mut d, ", not 400");
                            sink.push(Some(status_seq), d);
                        }
                    }
                }
            }
        }
        i = i + 1;
    }
    proof { lemma_sites_all(events, f); lemma_entries_all(events, h); lemma_tally_all(events, g); }
}

/// `BASE-032`: on HTTP, a `-32602` (the answer a malformed `_meta` envelope
/// draws) rides a `400`. Every `-32602` the trace shows with a recorded status
/// is judged.
pub fn missing_required_field_http_status(context: &TraceContext<'_>, sink: &mut FindingSink)
    ensures
        final(sink).check_id() == old(sink).check_id(),
        entry_seqs(final(sink).found()) == entry_seqs(old(sink).found()) + sites(context.trace(),
            |e: TraceEvent| status_error_site(context.trace(), -32602, e)),
        entry_views(final(sink).found()) == entry_views(old(sink).found()) + entries(context.trace(),
            |e: TraceEvent| status_error_entry(context.trace(), -32602, e, "missing required `_meta` field"@)),
        final(sink).subject_count() == after_counting(old(sink).subject_count(),
            tally(context.trace(), |e: TraceEvent| status_subject(context.trace(), -32602, e)) as int),
{
    http_status_for_error(context, sink, -32602, "missing required `_meta` field");
}

/// `BASE-036`: on HTTP, `MissingRequiredClientCapabilityError` (`-32021`) is a `400`.
pub fn missing_capability_http_status(context: &TraceContext<'_>, sink: &mut FindingSink)
    ensures
        final(sink).check_id() == old(sink).check_id(),
        entry_seqs(final(sink).found()) == entry_seqs(old(sink).found()) + sites(context.trace(),
            |e: TraceEvent| status_error_site(context.trace(), -32021, e)),
        entry_views(final(sink).found()) == entry_views(old(sink).found()) + entries(context.trace(),
            |e: TraceEvent| status_error_entry(context.trace(), -32021, e, "missing required client capability"@)),
        final(sink).subject_count() == after_counting(old(sink).subject_count(),
            tally(context.trace(), |e: TraceEvent| status_subject(context.trace(), -32021, e)) as int),
{
    http_status_for_error(context, sink, -32021, "missing required client capability");
}

/// Whether a `requiredCapabilities` value names something: a non-empty
/// `ClientCapabilities` object, or a non-empty list of names.
pub open spec fn names_missing(v: Json) -> bool {
    match v {
        Json::Object(m) => m@.len() > 0,
        Json::Array(a) => a@.len() > 0,
        _ => false,
    }
}

/// The `data.requiredCapabilities` of an error object.
pub open spec fn required_capabilities(err: Json) -> Option<Json> {
    match err.at("data"@) {
        Some(data) => data.at("requiredCapabilities"@),
        None => None,
    }
}

/// One subject per `-32021` error.
pub open spec fn capability_error_subject(e: TraceEvent) -> nat {
    if e.payload() matches Some(p) && p.at("error"@) matches Some(err)
        && err.at("code"@) matches Some(c) && c.int_value() == Some(-32021int) { 1 } else { 0 }
}

/// A `-32021` that does not name what was missing.
pub open spec fn capability_error_site(e: TraceEvent) -> Seq<Option<u64>> {
    if e.payload() matches Some(p) && p.at("error"@) matches Some(err)
        && err.at("code"@) matches Some(c) && c.int_value() == Some(-32021int)
        && !(required_capabilities(err) matches Some(v) && names_missing(v)) {
        seq![Some(e.seq)]
    } else {
        Seq::empty()
    }
}

/// The finding, as (seq, sentence), of a `-32021` that does not name what was
/// missing.
pub open spec fn capability_error_entry(e: TraceEvent) -> Seq<(Option<u64>, Seq<char>)> {
    if capability_error_site(e).len() > 0 {
        match required_capabilities(e.payload().unwrap().at("error"@).unwrap()) {
            Some(v) => match v {
                Json::Object(_) => seq![(Some(e.seq),
                    "error -32021 carries an empty `data.requiredCapabilities`; it must name the missing capabilities"@)],
                Json::Array(_) => seq![(Some(e.seq),
                    "error -32021 carries an empty `data.requiredCapabilities`; it must name the missing capabilities"@)],
                _ => seq![(Some(e.seq),
                    "error -32021 has `data.requiredCapabilities` that is not a `ClientCapabilities` object"@)],
            },
            None => seq![(Some(e.seq),
                "error -32021 has no `data.requiredCapabilities` naming the missing capabilities"@)],
        }
    } else {
        Seq::empty()
    }
}

/// `BASE-035`: a `-32021` carries `data.requiredCapabilities` naming what was
/// missing. Absent, empty, and values that are neither a capabilities object
/// nor a list of names are each reported.
pub fn missing_capability_error(context: &TraceContext<'_>, sink: &mut FindingSink)
    ensures
        final(sink).check_id() == old(sink).check_id(),
        final(sink).subject_count() == after_counting(old(sink).subject_count(),
            tally(context.trace(), |e: TraceEvent| capability_error_subject(e)) as int),
        entry_seqs(final(sink).found()) == entry_seqs(old(sink).found())
            + sites(context.trace(), |e: TraceEvent| capability_error_site(e)),
        entry_views(final(sink).found()) == entry_views(old(sink).found())
            + entries(context.trace(), |e: TraceEvent| capability_error_entry(e)),
{
    sink.examined_many(0);
    let ghost events = context.trace();
    let ghost f = |e: TraceEvent| capability_error_site(e);
    let ghost h = |e: TraceEvent| capability_error_entry(e);
    let n = context.len();
    let ghost g = |e: TraceEvent| capability_error_subject(e);
    let mut i: usize = 0;
    while i < n
        invariant
            n == events.len(),
            events == context.trace(),
            i <= n,
            f == (|e: TraceEvent| capability_error_site(e)),
            h == (|e: TraceEvent| capability_error_entry(e)),
            sink.check_id() == old(sink).check_id(),
            g == (|e: TraceEvent| capability_error_subject(e)),
            sink.subject_count() == after_counting(old(sink).subject_count(), tally(events.take(i as int), g) as int),
            entry_seqs(sink.found()) == entry_seqs(old(sink).found()) + sites(events.take(i as int), f),
            entry_views(sink.found()) == entry_views(old(sink).found()) + entries(events.take(i as int), h),
        decreases n - i,
    {
        proof { lemma_sites_take(events, f, i as int); lemma_entries_take(events, h, i as int); lemma_tally_take(events, g, i as int); }
        let event = context.event(i);
        let error = match event.message_payload() {
            Some(p) => p.get("error"),
            None => None,
        };
        if let Some(error) = error {
            let code = match error.get("code") {
                Some(c) => c.as_i64(),
                None => None,
            };
            if code == Some(-32021i64) {
                sink.examined();
                let required = match error.get("data") {
                    Some(data) => data.get("requiredCapabilities"),
                    None => None,
                };
                match required {
                    Some(v) => {
                        match v {
                            Json::Object(members) => if members.len() == 0 {
                                sink.push(Some(event.seq), owned(
                                    "error -32021 carries an empty `data.requiredCapabilities`; it must name the missing capabilities"));
                            },
                            Json::Array(items) => if items.len() == 0 {
                                sink.push(Some(event.seq), owned(
                                    "error -32021 carries an empty `data.requiredCapabilities`; it must name the missing capabilities"));
                            },
                            _ => sink.push(Some(event.seq), owned(
                                "error -32021 has `data.requiredCapabilities` that is not a `ClientCapabilities` object")),
                        }
                    },
                    None => sink.push(Some(event.seq), owned(
                        "error -32021 has no `data.requiredCapabilities` naming the missing capabilities")),
                }
            }
        }
        i = i + 1;
    }
    proof { lemma_sites_all(events, f); lemma_entries_all(events, h); lemma_tally_all(events, g); }
}

/// The capability names a request's `_meta.clientCapabilities` declares.
pub open spec fn declared_names(p: Json) -> Seq<Seq<char>> {
    match meta_member(p, "io.modelcontextprotocol/clientCapabilities"@) {
        Some(Json::Object(members)) => members@.map_values(|m: (String, Json)| m.0@),
        _ => Seq::empty(),
    }
}

/// Each client request's declared capabilities, by id text, in order.
pub open spec fn declared_list(events: Seq<TraceEvent>) -> Seq<(Seq<char>, Seq<Seq<char>>)>
    decreases events.len(),
{
    if events.len() == 0 {
        Seq::empty()
    } else {
        let e = events.last();
        if carries_method(e) && e.payload().unwrap().at("id"@) is Some {
            declared_list(events.drop_last()).push(
                (json_text(e.payload().unwrap().at("id"@).unwrap()), declared_names(e.payload().unwrap())))
        } else {
            declared_list(events.drop_last())
        }
    }
}

/// The declaration recorded last for id text `t`.
pub open spec fn last_names_for(list: Seq<(Seq<char>, Seq<Seq<char>>)>, t: Seq<char>) -> Option<Seq<Seq<char>>>
    decreases list.len(),
{
    if list.len() == 0 {
        None
    } else if list.last().0 == t {
        Some(list.last().1)
    } else {
        last_names_for(list.drop_last(), t)
    }
}

/// The capability an input request's method needs, when one governs it.
pub open spec fn needed_capability(m: Seq<char>) -> Option<Seq<char>> {
    if m == "elicitation/create"@ {
        Some("elicitation"@)
    } else if m == "sampling/createMessage"@ {
        Some("sampling"@)
    } else if m == "roots/list"@ {
        Some("roots"@)
    } else {
        None
    }
}

/// One finding per input request whose governing capability `names` lacks.
pub open spec fn input_sites(requests: Seq<(String, Json)>, names: Seq<Seq<char>>, seq: u64) -> Seq<Option<u64>>
    decreases requests.len(),
{
    if requests.len() == 0 {
        Seq::empty()
    } else {
        let r = requests.last().1;
        input_sites(requests.drop_last(), names, seq)
            + if r.at("method"@) matches Some(m) && m.text() matches Some(t)
                && needed_capability(t) matches Some(c) && !names.contains(c) {
                seq![Some(seq)]
            } else {
                Seq::empty()
            }
    }
}

/// One subject per input request of a kind some capability governs.
pub open spec fn input_subjects(requests: Seq<(String, Json)>) -> nat
    decreases requests.len(),
{
    if requests.len() == 0 {
        0
    } else {
        let r = requests.last().1;
        input_subjects(requests.drop_last())
            + if r.at("method"@) matches Some(m) && m.text() matches Some(t) && needed_capability(t) is Some { 1nat } else { 0nat }
    }
}

/// The subjects an event is to the reliance clause: the governed input
/// requests of an `input_required` result answering a recorded request.
pub open spec fn reliance_subject(events: Seq<TraceEvent>, e: TraceEvent) -> nat {
    if e.direction != Direction::ServerToClient {
        0
    } else {
        match e.payload() {
            Some(p) => match p.at("result"@) {
                Some(result) => match p.at("id"@) {
                    Some(id) => if (result.at("resultType"@) matches Some(t) && t.text() == Some("input_required"@)) {
                        match last_names_for(declared_list(events), json_text(id)) {
                            Some(names) => input_subjects(input_requests(result)),
                            None => 0,
                        }
                    } else {
                        0
                    },
                    None => 0,
                },
                None => 0,
            },
            None => 0,
        }
    }
}

/// The findings, as (seq, sentence), of the input requests whose governing
/// capability `names` lacks.
pub open spec fn input_entries(requests: Seq<(String, Json)>, names: Seq<Seq<char>>, seq: u64) -> Seq<(Option<u64>, Seq<char>)>
    decreases requests.len(),
{
    if requests.len() == 0 {
        Seq::empty()
    } else {
        let r = requests.last().1;
        input_entries(requests.drop_last(), names, seq)
            + if r.at("method"@) matches Some(m) && m.text() matches Some(t)
                && needed_capability(t) matches Some(c) && !names.contains(c) {
                let t = r.at("method"@).unwrap().text().unwrap();
                seq![(Some(seq), "server asked for `"@ + t + "`, which needs the `"@ + needed_capability(t).unwrap()
                    + "` capability, but the request's `clientCapabilities` did not declare it"@)]
            } else {
                Seq::empty()
            }
    }
}

/// The reliance findings of an event, as (seq, sentence).
pub open spec fn reliance_entry(events: Seq<TraceEvent>, e: TraceEvent) -> Seq<(Option<u64>, Seq<char>)> {
    if e.direction != Direction::ServerToClient {
        Seq::empty()
    } else {
        match e.payload() {
            Some(p) => match p.at("result"@) {
                Some(result) => match p.at("id"@) {
                    Some(id) => if (result.at("resultType"@) matches Some(t) && t.text() == Some("input_required"@)) {
                        match last_names_for(declared_list(events), json_text(id)) {
                            Some(names) => input_entries(input_requests(result), names, e.seq),
                            None => Seq::empty(),
                        }
                    } else {
                        Seq::empty()
                    },
                    None => Seq::empty(),
                },
                None => Seq::empty(),
            },
            None => Seq::empty(),
        }
    }
}

/// The input requests of an `input_required` result, as members.
pub open spec fn input_requests(result: Json) -> Seq<(String, Json)> {
    match result.at("inputRequests"@) {
        Some(Json::Object(members)) => members@,
        _ => Seq::empty(),
    }
}

/// An `input_required` answer asking for input the request's own capabilities
/// never advertised.
pub open spec fn reliance_site(events: Seq<TraceEvent>, e: TraceEvent) -> Seq<Option<u64>> {
    if e.direction != Direction::ServerToClient {
        Seq::empty()
    } else {
        match e.payload() {
            Some(p) => match p.at("result"@) {
                Some(result) => match p.at("id"@) {
                    Some(id) => if (result.at("resultType"@) matches Some(t) && t.text() == Some("input_required"@)) {
                        match last_names_for(declared_list(events), json_text(id)) {
                            Some(names) => input_sites(input_requests(result), names, e.seq),
                            None => Seq::empty(),
                        }
                    } else {
                        Seq::empty()
                    },
                    None => Seq::empty(),
                },
                None => Seq::empty(),
            },
            None => Seq::empty(),
        }
    }
}

/// The views of (text, names) pairs.
pub open spec fn name_pairs(v: Seq<(String, Vec<String>)>) -> Seq<(Seq<char>, Seq<Seq<char>>)> {
    v.map_values(|x: (String, Vec<String>)| (x.0@, crate::text::texts(x.1@)))
}

fn declared_requests(context: &TraceContext<'_>) -> (r: Vec<(String, Vec<String>)>)
    ensures
        name_pairs(r@) == declared_list(context.trace()),
{
    let ghost events = context.trace();
    let n = context.len();
    let mut out: Vec<(String, Vec<String>)> = Vec::new();
    let mut i: usize = 0;
    while i < n
        invariant
            n == events.len(),
            events == context.trace(),
            i <= n,
            name_pairs(out@) == declared_list(events.take(i as int)),
        decreases n - i,
    {
        proof { assert(events.take(i + 1).drop_last() =~= events.take(i as int)); }
        if let Some(payload) = client_request(context, i) {
            if let Some(id) = payload.get("id") {
                let mut names: Vec<String> = Vec::new();
                if let Some(caps) = get_meta_member(payload, "io.modelcontextprotocol/clientCapabilities") {
                    if let Json::Object(members) = caps {
                        let mut k: usize = 0;
                        while k < members.len()
                            invariant
                                k <= members@.len(),
                                crate::text::texts(names@) == members@.take(k as int).map_values(|m: (String, Json)| m.0@),
                            decreases members@.len() - k,
                        {
                            let ghost prev = names@;
                            let name = owned(members[k].0.as_str());
                            names.push(name);
                            assert(names@ == prev.push(name));
                            assert(crate::text::texts(names@) =~= crate::text::texts(prev).push(members@[k as int].0@));
                            assert(members@.take(k + 1).map_values(|m: (String, Json)| m.0@)
                                =~= members@.take(k as int).map_values(|m: (String, Json)| m.0@).push(members@[k as int].0@));
                            k = k + 1;
                        }
                        assert(members@.take(members@.len() as int) =~= members@);
                    }
                }
                assert(crate::text::texts(names@) == declared_names(*payload));
                out.push((id.to_text(), names));
            }
        }
        assert(name_pairs(out@) =~= declared_list(events.take(i + 1)));
        i = i + 1;
    }
    assert(events.take(n as int) =~= events);
    out
}

fn lookup_names<'a>(list: &'a Vec<(String, Vec<String>)>, t: &str) -> (r: Option<&'a Vec<String>>)
    ensures
        match r {
            Some(v) => last_names_for(name_pairs(list@), t@) == Some(crate::text::texts(v@)),
            None => last_names_for(name_pairs(list@), t@) is None,
        },
{
    let ghost views = name_pairs(list@);
    let mut i = list.len();
    assert(views.take(i as int) =~= views);
    while i > 0
        invariant
            i <= list@.len(),
            views == name_pairs(list@),
            last_names_for(views, t@) == last_names_for(views.take(i as int), t@),
        decreases i,
    {
        i = i - 1;
        proof {
            assert(views.take(i + 1).drop_last() =~= views.take(i as int));
            assert(views.take(i + 1).last() == (list@[i as int].0@, crate::text::texts(list@[i as int].1@)));
        }
        if text_eq(list[i].0.as_str(), t) {
            return Some(&list[i].1);
        }
    }
    None
}

fn needed_for(m: &str) -> (r: Option<&'static str>)
    ensures
        match r {
            Some(c) => needed_capability(m@) == Some(c@),
            None => needed_capability(m@) is None,
        },
{
    if text_eq(m, "elicitation/create") {
        Some("elicitation")
    } else if text_eq(m, "sampling/createMessage") {
        Some("sampling")
    } else if text_eq(m, "roots/list") {
        Some("roots")
    } else {
        None
    }
}

/// `BASE-034`: a server must not rely on capabilities the client did not
/// declare. Its wire-visible form: an `input_required` result asking for input
/// of a kind the request's own `clientCapabilities` never advertised.
pub fn no_undeclared_capability_reliance(context: &TraceContext<'_>, sink: &mut FindingSink)
    ensures
        final(sink).check_id() == old(sink).check_id(),
        final(sink).subject_count() == after_counting(old(sink).subject_count(),
            tally(context.trace(), |e: TraceEvent| reliance_subject(context.trace(), e)) as int),
        entry_seqs(final(sink).found()) == entry_seqs(old(sink).found())
            + sites(context.trace(), |e: TraceEvent| reliance_site(context.trace(), e)),
        crate::checks::entry_views(final(sink).found()) == crate::checks::entry_views(old(sink).found())
            + entries(context.trace(), |e: TraceEvent| reliance_entry(context.trace(), e)),
{
    sink.examined_many(0);
    let ghost events = context.trace();
    let ghost f = |e: TraceEvent| reliance_site(events, e);
    let declared = declared_requests(context);
    let n = context.len();
    let ghost g = |e: TraceEvent| reliance_subject(events, e);
    let ghost h = |e: TraceEvent| reliance_entry(events, e);
    let mut i: usize = 0;
    proof { reveal_strlit("input_required"); }
    while i < n
        invariant
            n == events.len(),
            events == context.trace(),
            i <= n,
            name_pairs(declared@) == declared_list(events),
            f == (|e: TraceEvent| reliance_site(events, e)),
            sink.check_id() == old(sink).check_id(),
            g == (|e: TraceEvent| reliance_subject(events, e)),
            sink.subject_count() == after_counting(old(sink).subject_count(), tally(events.take(i as int), g) as int),
            entry_seqs(sink.found()) == entry_seqs(old(sink).found()) + sites(events.take(i as int), f),
            h == (|e: TraceEvent| reliance_entry(events, e)),
            crate::checks::entry_views(sink.found()) == crate::checks::entry_views(old(sink).found()) + entries(events.take(i as int), h),
        decreases n - i,
    {
        proof { lemma_sites_take(events, f, i as int); lemma_tally_take(events, g, i as int); lemma_entries_take(events, h, i as int); }
        let event = context.event(i);
        if event.direction == Direction::ServerToClient {
            if let Some(payload) = event.message_payload() {
                if let Some(result) = payload.get("result") {
                    let kind = match result.get("resultType") {
                        Some(t) => match t.as_str() {
                            Some(s) => text_eq(s, "input_required"),
                            None => false,
                        },
                        None => false,
                    };
                    if kind {
                        if let Some(id) = payload.get("id") {
                            let text = id.to_text();
                            if let Some(names) = lookup_names(&declared, text.as_str()) {
                                let ghost before = entry_seqs(sink.found());
                                let requests: &Vec<(String, Json)> = match result.get("inputRequests") {
                                    Some(Json::Object(members)) => members,
                                    _ => &Vec::new(),
                                };
                                let ghost rs = requests@;
                                let ghost counted = tally(events.take(i as int), g);
                                let ghost views = crate::checks::entry_views(sink.found());
                                assert(rs == input_requests(*result));
                                let mut k: usize = 0;
                                while k < requests.len()
                                    invariant
                                        k <= rs.len(),
                                        rs == requests@,
                                        sink.check_id() == old(sink).check_id(),
                                        sink.subject_count() == after_counting(old(sink).subject_count(),
                                            (counted + input_subjects(rs.take(k as int))) as int),
                                        crate::checks::entry_views(sink.found()) == views
                                            + input_entries(rs.take(k as int), crate::text::texts(names@), event.seq),
                                        entry_seqs(sink.found()) == before
                                            + input_sites(rs.take(k as int), crate::text::texts(names@), event.seq),
                                    decreases rs.len() - k,
                                {
                                    proof { assert(rs.take(k + 1).drop_last() =~= rs.take(k as int)); }
                                    let method = match requests[k].1.get("method") {
                                        Some(m) => m.as_str(),
                                        None => None,
                                    };
                                    if let Some(method) = method {
                                        if let Some(needed) = needed_for(method) {
                                            sink.examined();
                                            if !crate::text::contains_text(names, needed) {
                                                let mut d = owned("server asked for `");
                                                push_text(&mut d, method);
                                                push_text(&mut d, "`, which needs the `");
                                                push_text(&mut d, needed);
                                                push_text(&mut d, "` capability, but the request's `clientCapabilities` did not declare it");
                                                proof {
                                                    assert(d@ =~= "server asked for `"@ + method@ + "`, which needs the `"@ + needed@
                                                        + "` capability, but the request's `clientCapabilities` did not declare it"@);
                                                }
                                                sink.push(Some(event.seq), d);
                                            }
                                        }
                                    }
                                    k = k + 1;
                                }
                                assert(rs.take(rs.len() as int) =~= rs);
                            }
                        }
                    }
                }
            }
        }
        i = i + 1;
    }
    proof { lemma_sites_all(events, f); lemma_tally_all(events, g); lemma_entries_all(events, h); }
}

/// Whether `e` is a message naming `subscriptions/listen`.
pub open spec fn names_listen(e: TraceEvent) -> bool {
    e.payload() matches Some(p) && p.at("method"@) matches Some(m) && m.text() == Some("subscriptions/listen"@)
}

/// Whether a notification method is request-scoped: progress and log
/// notifications ride their request's response stream.
pub open spec fn request_scoped(m: Seq<char>) -> bool {
    ("notifications/progress"@.len() <= m.len() && m.take("notifications/progress"@.len() as int) == "notifications/progress"@)
        || ("notifications/message"@.len() <= m.len() && m.take("notifications/message"@.len() as int) == "notifications/message"@)
}

/// An untagged server notification in a trace that opened a listen stream.
pub open spec fn untagged_site(events: Seq<TraceEvent>, e: TraceEvent) -> Seq<Option<u64>> {
    if any_event(events, |x: TraceEvent| names_listen(x)) && e.direction == Direction::ServerToClient
        && e.payload() is Some && e.payload().unwrap().at("id"@) is None
        && e.payload().unwrap().at("method"@) is Some
        && !request_scoped(e.payload().unwrap().at("method"@).unwrap().text().unwrap_or(Seq::empty()))
        && !has_meta(e.payload().unwrap(), "io.modelcontextprotocol/subscriptionId"@) {
        seq![Some(e.seq)]
    } else {
        Seq::empty()
    }
}

/// The finding, as (seq, sentence), of a notification on a listen stream
/// without a subscription id.
pub open spec fn untagged_entry(events: Seq<TraceEvent>, e: TraceEvent) -> Seq<(Option<u64>, Seq<char>)> {
    if untagged_site(events, e).len() > 0 {
        seq![(Some(e.seq), "notification `"@
            + e.payload().unwrap().at("method"@).unwrap().text().unwrap_or(Seq::empty())
            + "` on a subscriptions/listen stream has no `io.modelcontextprotocol/subscriptionId` in `_meta`"@)]
    } else {
        Seq::empty()
    }
}

/// One subject per server notification outside the request-scoped ones, in a
/// trace that opened a listen stream.
pub open spec fn untagged_subject(events: Seq<TraceEvent>, e: TraceEvent) -> nat {
    if any_event(events, |x: TraceEvent| names_listen(x)) && e.direction == Direction::ServerToClient
        && e.payload() is Some && e.payload().unwrap().at("id"@) is None
        && e.payload().unwrap().at("method"@) is Some
        && !request_scoped(e.payload().unwrap().at("method"@).unwrap().text().unwrap_or(Seq::empty())) { 1 } else { 0 }
}

/// `BASE-039`: notifications on a `subscriptions/listen` stream carry
/// `io.modelcontextprotocol/subscriptionId`. Scoped to traces that opened such a
/// stream; request-scoped notifications are outside the clause.
pub fn subscription_id_present(context: &TraceContext<'_>, sink: &mut FindingSink)
    ensures
        final(sink).check_id() == old(sink).check_id(),
        final(sink).subject_count() == after_counting(old(sink).subject_count(),
            tally(context.trace(), |e: TraceEvent| untagged_subject(context.trace(), e)) as int),
        entry_seqs(final(sink).found()) == entry_seqs(old(sink).found())
            + sites(context.trace(), |e: TraceEvent| untagged_site(context.trace(), e)),
        entry_views(final(sink).found()) == entry_views(old(sink).found())
            + entries(context.trace(), |e: TraceEvent| untagged_entry(context.trace(), e)),
{
    sink.examined_many(0);
    let ghost events = context.trace();
    let ghost listen = |x: TraceEvent| names_listen(x);
    let ghost f = |e: TraceEvent| untagged_site(events, e);
    let ghost h = |e: TraceEvent| untagged_entry(events, e);
    let n = context.len();
    let mut listening = false;
    let mut i: usize = 0;
    proof {
        reveal_strlit("subscriptions/listen");
        reveal_strlit("notifications/progress");
        reveal_strlit("notifications/message");
    }
    while i < n
        invariant
            n == events.len(),
            events == context.trace(),
            i <= n,
            listen == (|x: TraceEvent| names_listen(x)),
            listening == any_event(events.take(i as int), listen),
        decreases n - i,
    {
        proof { assert(events.take(i + 1).drop_last() =~= events.take(i as int)); }
        let event = context.event(i);
        if let Some(payload) = event.message_payload() {
            if let Some(m) = payload.get("method") {
                if let Some(name) = m.as_str() {
                    if text_eq(name, "subscriptions/listen") {
                        listening = true;
                    }
                }
            }
        }
        i = i + 1;
    }
    proof { assert(events.take(n as int) =~= events); }
    if !listening {
        proof {
            assert(sites(events, f) =~= Seq::<Option<u64>>::empty()) by {
                lemma_no_sites(events, f);
            }
            let g0 = |e: TraceEvent| untagged_subject(events, e);
            assert forall|k: int| 0 <= k < events.len() implies g0(#[trigger] events[k]) == 0 by {}
            lemma_tally_none(events, g0);
            assert forall|k: int| 0 <= k < events.len() implies h(#[trigger] events[k]).len() == 0 by {}
            lemma_entries_none(events, h);
            assert(entry_views(old(sink).found()) + entries(events, h) =~= entry_views(old(sink).found()));
        }
        return;
    }
    let ghost g = |e: TraceEvent| untagged_subject(events, e);
    let mut i: usize = 0;
    while i < n
        invariant
            n == events.len(),
            events == context.trace(),
            i <= n,
            listen == (|x: TraceEvent| names_listen(x)),
            any_event(events, listen),
            f == (|e: TraceEvent| untagged_site(events, e)),
            h == (|e: TraceEvent| untagged_entry(events, e)),
            entry_views(sink.found()) == entry_views(old(sink).found()) + entries(events.take(i as int), h),
            sink.check_id() == old(sink).check_id(),
            g == (|e: TraceEvent| untagged_subject(events, e)),
            sink.subject_count() == after_counting(old(sink).subject_count(), tally(events.take(i as int), g) as int),
            entry_seqs(sink.found()) == entry_seqs(old(sink).found()) + sites(events.take(i as int), f),
        decreases n - i,
    {
        proof { lemma_sites_take(events, f, i as int); lemma_tally_take(events, g, i as int); lemma_entries_take(events, h, i as int); }
        let event = context.event(i);
        let ghost before = entry_seqs(sink.found());
        let ghost before_views = entry_views(sink.found());
        if event.direction == Direction::ServerToClient {
            if let Some(payload) = event.message_payload() {
                if payload.get("id").is_none() && payload.get("method").is_some() {
                    let method: &str = match payload.get("method") {
                        Some(m) => match m.as_str() {
                            Some(s) => s,
                            None => "",
                        },
                        None => "",
                    };
                    proof { reveal_strlit(""); }
                    assert(method@ == payload.at("method"@).unwrap().text().unwrap_or(Seq::empty()));
                    if !starts_with(method, "notifications/progress") && !starts_with(method, "notifications/message") {
                        sink.examined();
                        if get_meta_member(payload, "io.modelcontextprotocol/subscriptionId").is_none() {
                            let mut d = owned("notification `");
                            push_text(&mut d, method);
                            push_text(&mut d, "` on a subscriptions/listen stream has no `io.modelcontextprotocol/subscriptionId` in `_meta`");
                            sink.push(Some(event.seq), d);
                        }
                    }
                }
            }
        }
        assert(entry_seqs(sink.found()) =~= before + untagged_site(events, *event));
        assert(entry_views(sink.found()) =~= before_views + untagged_entry(events, *event));
        i = i + 1;
    }
    proof { lemma_sites_all(events, f); lemma_entries_all(events, h); lemma_tally_all(events, g); }
}

/// A trace that never opened a listen stream yields no untagged-notification
/// findings.
proof fn lemma_no_sites(events: Seq<TraceEvent>, f: spec_fn(TraceEvent) -> Seq<Option<u64>>)
    requires
        !any_event(events, |x: TraceEvent| names_listen(x)),
        f == (|e: TraceEvent| untagged_site(events, e)),
    ensures
        sites(events, f) =~= Seq::<Option<u64>>::empty(),
{
    let n = events.len() as int;
    assert forall|k: int| 0 <= k <= n implies sites(events.take(k), f) =~= Seq::<Option<u64>>::empty() by {
        lemma_no_sites_upto(events, f, k);
    }
    assert(events.take(n) =~= events);
}

proof fn lemma_no_sites_upto(events: Seq<TraceEvent>, f: spec_fn(TraceEvent) -> Seq<Option<u64>>, k: int)
    requires
        !any_event(events, |x: TraceEvent| names_listen(x)),
        f == (|e: TraceEvent| untagged_site(events, e)),
        0 <= k <= events.len(),
    ensures
        sites(events.take(k), f) =~= Seq::<Option<u64>>::empty(),
    decreases k,
{
    if k > 0 {
        lemma_no_sites_upto(events, f, k - 1);
        lemma_sites_take(events, f, k - 1);
    }
}

} // verus!
