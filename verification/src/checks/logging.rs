//! Logging at `2026-07-28`, where the level rides each request's `_meta`.
//!
//! A client asks for log messages by putting `io.modelcontextprotocol/logLevel`
//! in a request's `_meta`, and the server may answer with
//! `notifications/message` on that request's response stream and nowhere else.

use vstd::prelude::*;
use crate::checks::sites::{xentries, lemma_xentries_take, lemma_xentries_all};
use crate::checks::entry_views;
use crate::checks::after_counting;
use crate::checks::sites::{tally, xtally, lemma_tally_take, lemma_xtally_take, lemma_tally_all, lemma_xtally_all};
use crate::checks::{FindingSink, entry_seqs};
use crate::checks::sites::{sites, lemma_sites_take, lemma_sites_all, xsites, lemma_xsites_take, lemma_xsites_all};
use crate::checks::discovery::any_event;
use crate::checks::support::{meta_member, get_meta_member};
use crate::checks::caching::x_params;
use crate::context::{TraceContext, exchange_ixs, exchanges_are};
use crate::json::{Json, json_text};
use crate::message::{MessageKind, Tag, spec_tag};
use crate::text::{owned, push_text, text_eq, i64_text};
use crate::trace::{Direction, TraceEvent};

verus! {

/// Whether `e` is a server `notifications/message`.
pub open spec fn is_log(e: TraceEvent) -> bool {
    &&& e.direction == Direction::ServerToClient
    &&& e.payload() matches Some(p)
    &&& spec_tag(p) == Tag::Notification
    &&& p.at("method"@).unwrap().text() == Some("notifications/message"@)
}

/// Whether `e` is a client message whose `_meta` sets a log level.
pub open spec fn asks_for_logs(e: TraceEvent) -> bool {
    &&& e.direction == Direction::ClientToServer
    &&& e.payload() matches Some(p)
    &&& meta_member(p, "io.modelcontextprotocol/logLevel"@) is Some
}

/// A log notification in a session where no request asked for logs.
pub open spec fn unrequested_site(events: Seq<TraceEvent>, e: TraceEvent) -> Seq<Option<u64>> {
    if is_log(e) && !any_event(events, |x: TraceEvent| asks_for_logs(x)) {
        seq![Some(e.seq)]
    } else {
        Seq::empty()
    }
}

/// One subject per log message notification.
pub open spec fn log_subject(e: TraceEvent) -> nat {
    if is_log(e) { 1 } else { 0 }
}

fn log_event(context: &TraceContext<'_>, i: usize) -> (r: bool)
    requires
        i < context.trace().len(),
    ensures
        r == is_log(context.trace()[i as int]),
{
    let event = context.event(i);
    proof { reveal_strlit("notifications/message"); }
    if event.direction != Direction::ServerToClient {
        return false;
    }
    match context.kind(i) {
        Some(MessageKind::Notification { method }) => text_eq(method, "notifications/message"),
        Some(_) => false,
        None => false,
    }
}

/// `LOG-008`: `notifications/message` only for a request that asked for it. If
/// no request in the session set a log level, no log notification may appear;
/// a session with at least one level-setting request is not judged further,
/// since a shared channel cannot attribute a notification to one request.
pub fn level_requested(context: &TraceContext<'_>, sink: &mut FindingSink)
    ensures
        final(sink).check_id() == old(sink).check_id(),
        crate::checks::extends_with(old(sink).found(), final(sink).found(), "server emitted `notifications/message` though no request in this session carried `io.modelcontextprotocol/logLevel`"@),
        final(sink).subject_count() == after_counting(old(sink).subject_count(),
            tally(context.trace(), |e: TraceEvent| log_subject(e)) as int),
        entry_seqs(final(sink).found()) == entry_seqs(old(sink).found())
            + sites(context.trace(), |e: TraceEvent| unrequested_site(context.trace(), e)),
{
    sink.examined_many(0);
    let ghost events = context.trace();
    let ghost asks = |x: TraceEvent| asks_for_logs(x);
    let ghost f = |e: TraceEvent| unrequested_site(events, e);
    let n = context.len();
    let mut any_requested = false;
    let mut i: usize = 0;
    while i < n
        invariant
            n == events.len(),
            events == context.trace(),
            i <= n,
            asks == (|x: TraceEvent| asks_for_logs(x)),
            any_requested == any_event(events.take(i as int), asks),
        decreases n - i,
    {
        let event = context.event(i);
        proof { assert(events.take(i + 1).drop_last() =~= events.take(i as int)); }
        if event.direction == Direction::ClientToServer {
            if let Some(payload) = event.message_payload() {
                if get_meta_member(payload, "io.modelcontextprotocol/logLevel").is_some() {
                    any_requested = true;
                }
            }
        }
        i = i + 1;
    }
    proof { assert(events.take(n as int) =~= events); }
    let ghost g = |e: TraceEvent| log_subject(e);
    let mut i: usize = 0;
    while i < n
        invariant
            n == events.len(),
            events == context.trace(),
            i <= n,
            asks == (|x: TraceEvent| asks_for_logs(x)),
            any_requested == any_event(events, asks),
            f == (|e: TraceEvent| unrequested_site(events, e)),
            sink.check_id() == old(sink).check_id(),
            crate::checks::extends_with(old(sink).found(), sink.found(), "server emitted `notifications/message` though no request in this session carried `io.modelcontextprotocol/logLevel`"@),
            g == (|e: TraceEvent| log_subject(e)),
            sink.subject_count() == after_counting(old(sink).subject_count(), tally(events.take(i as int), g) as int),
            entry_seqs(sink.found()) == entry_seqs(old(sink).found()) + sites(events.take(i as int), f),
        decreases n - i,
    {
        proof { lemma_sites_take(events, f, i as int); lemma_tally_take(events, g, i as int); }
        if log_event(context, i) {
            sink.examined();
            if !any_requested {
                sink.push(Some(context.event(i).seq), owned(
                    "server emitted `notifications/message` though no request in this session carried `io.modelcontextprotocol/logLevel`"));
            }
        }
        i = i + 1;
    }
    proof { lemma_sites_all(events, f); lemma_tally_all(events, g); }
}

/// A log notification tagged with a non-null subscription id.
pub open spec fn subscription_log_site(e: TraceEvent) -> Seq<Option<u64>> {
    if is_log(e) && (meta_member(e.payload().unwrap(), "io.modelcontextprotocol/subscriptionId"@) matches Some(id)
        && !(id is Null)) {
        seq![Some(e.seq)]
    } else {
        Seq::empty()
    }
}

/// `LOG-009`: log notifications stay off a `subscriptions/listen` stream: one
/// tagged with `io.modelcontextprotocol/subscriptionId` is travelling on a
/// subscription's stream.
pub fn not_on_subscription(context: &TraceContext<'_>, sink: &mut FindingSink)
    ensures
        final(sink).check_id() == old(sink).check_id(),
        crate::checks::extends_with(old(sink).found(), final(sink).found(), "`notifications/message` carries a subscription id, so it is travelling on a `subscriptions/listen` stream; logging is request-scoped"@),
        final(sink).subject_count() == after_counting(old(sink).subject_count(),
            tally(context.trace(), |e: TraceEvent| log_subject(e)) as int),
        entry_seqs(final(sink).found()) == entry_seqs(old(sink).found())
            + sites(context.trace(), |e: TraceEvent| subscription_log_site(e)),
{
    sink.examined_many(0);
    let ghost events = context.trace();
    let ghost f = |e: TraceEvent| subscription_log_site(e);
    let n = context.len();
    let ghost g = |e: TraceEvent| log_subject(e);
    let mut i: usize = 0;
    while i < n
        invariant
            n == events.len(),
            events == context.trace(),
            i <= n,
            f == (|e: TraceEvent| subscription_log_site(e)),
            sink.check_id() == old(sink).check_id(),
            crate::checks::extends_with(old(sink).found(), sink.found(), "`notifications/message` carries a subscription id, so it is travelling on a `subscriptions/listen` stream; logging is request-scoped"@),
            g == (|e: TraceEvent| log_subject(e)),
            sink.subject_count() == after_counting(old(sink).subject_count(), tally(events.take(i as int), g) as int),
            entry_seqs(sink.found()) == entry_seqs(old(sink).found()) + sites(events.take(i as int), f),
        decreases n - i,
    {
        proof { lemma_sites_take(events, f, i as int); lemma_tally_take(events, g, i as int); }
        if log_event(context, i) {
            sink.examined();
            let event = context.event(i);
            let payload = event.message_payload().unwrap();
            let tagged = match get_meta_member(payload, "io.modelcontextprotocol/subscriptionId") {
                Some(id) => !id.is_null(),
                None => false,
            };
            if tagged {
                sink.push(Some(event.seq), owned(
                    "`notifications/message` carries a subscription id, so it is travelling on a `subscriptions/listen` stream; logging is request-scoped"));
            }
        }
        i = i + 1;
    }
    proof { lemma_sites_all(events, f); lemma_tally_all(events, g); }
}

/// The eight RFC 5424 levels.
pub open spec fn rfc5424_level(t: Seq<char>) -> bool {
    t == "debug"@ || t == "info"@ || t == "notice"@ || t == "warning"@ || t == "error"@
        || t == "critical"@ || t == "alert"@ || t == "emergency"@
}

fn is_level(t: &str) -> (r: bool)
    ensures
        r == rfc5424_level(t@),
{
    text_eq(t, "debug") || text_eq(t, "info") || text_eq(t, "notice") || text_eq(t, "warning")
        || text_eq(t, "error") || text_eq(t, "critical") || text_eq(t, "alert") || text_eq(t, "emergency")
}

/// The level a request's `_meta` names, when it names one.
pub open spec fn requested_level(events: Seq<TraceEvent>, r: int) -> Option<Json> {
    match x_params(events, r) {
        Some(params) => match params.at("_meta"@) {
            Some(meta) => meta.at("io.modelcontextprotocol/logLevel"@),
            None => None,
        },
        None => None,
    }
}

/// The `error.code` of the response at `j`, when it is a 64-bit integer.
pub open spec fn response_code(events: Seq<TraceEvent>, j: int) -> Option<int> {
    match events[j].payload().unwrap().at("error"@) {
        Some(error) => match error.at("code"@) {
            Some(code) => code.int_value(),
            None => None,
        },
        None => None,
    }
}

/// An exchange whose request named a level outside the eight and whose answer
/// is not `-32602`.
pub open spec fn invalid_level_site(events: Seq<TraceEvent>, x: (int, int)) -> Seq<Option<u64>> {
    let (r, j) = x;
    if requested_level(events, r) matches Some(level)
        && !(level.text() matches Some(t) && rfc5424_level(t))
        && response_code(events, j) != Some(-32602int) {
        seq![Some(events[j].seq)]
    } else {
        Seq::empty()
    }
}

/// The finding, as (seq, sentence), of an exchange whose request named a level
/// outside the eight and whose answer is not `-32602`.
pub open spec fn invalid_level_entry(events: Seq<TraceEvent>, x: (int, int)) -> Seq<(Option<u64>, Seq<char>)> {
    if invalid_level_site(events, x).len() > 0 {
        seq![(Some(events[x.1].seq), "the request declared log level "@
            + crate::json::json_text(requested_level(events, x.0).unwrap())
            + ", which is not one of the eight RFC 5424 levels, and drew "@
            + match response_code(events, x.1) {
                Some(c) => "error "@ + crate::text::signed_decimal(c),
                None => "a result"@,
            } + " rather than -32602"@)]
    } else {
        Seq::empty()
    }
}

/// One subject per exchange whose request named a level outside the eight.
pub open spec fn invalid_level_subject(events: Seq<TraceEvent>, x: (int, int)) -> nat {
    if requested_level(events, x.0) matches Some(level) && !(level.text() matches Some(t) && rfc5424_level(t)) { 1 } else { 0 }
}

/// `LOG-010`: an unrecognized log level draws `-32602`. The levels are RFC
/// 5424's eight.
pub fn invalid_level_rejected(context: &TraceContext<'_>, sink: &mut FindingSink)
    ensures
        final(sink).check_id() == old(sink).check_id(),
        final(sink).subject_count() == after_counting(old(sink).subject_count(),
            xtally(exchange_ixs(context.trace(), context.pairs(), None, context.trace().len() as nat), |x: (int, int)| invalid_level_subject(context.trace(), x)) as int),
        entry_seqs(final(sink).found()) == entry_seqs(old(sink).found()) + xsites(
            exchange_ixs(context.trace(), context.pairs(), None, context.trace().len() as nat),
            |x: (int, int)| invalid_level_site(context.trace(), x)),
        entry_views(final(sink).found()) == entry_views(old(sink).found())
            + xentries(exchange_ixs(context.trace(), context.pairs(), None, context.trace().len() as nat), |x: (int, int)| invalid_level_entry(context.trace(), x)),
{
    sink.examined_many(0);
    let exchanges = context.exchanges();
    let ghost events = context.trace();
    let ghost ixs = exchange_ixs(context.trace(), context.pairs(), None, context.trace().len() as nat);
    let ghost f = |x: (int, int)| invalid_level_site(events, x);
    let ghost h = |x: (int, int)| invalid_level_entry(events, x);
    let ghost g = |x: (int, int)| invalid_level_subject(events, x);
    let mut k: usize = 0;
    while k < exchanges.len()
        invariant
            k <= exchanges@.len(),
            exchanges_are(exchanges@, events, ixs),
            f == (|x: (int, int)| invalid_level_site(events, x)),
            sink.check_id() == old(sink).check_id(),
            g == (|x: (int, int)| invalid_level_subject(events, x)),
            sink.subject_count() == after_counting(old(sink).subject_count(), xtally(ixs.take(k as int), g) as int),
            entry_seqs(sink.found()) == entry_seqs(old(sink).found()) + xsites(ixs.take(k as int), f),
            h == (|x: (int, int)| invalid_level_entry(events, x)),
            entry_views(sink.found()) == entry_views(old(sink).found()) + xentries(ixs.take(k as int), h),
        decreases exchanges@.len() - k,
    {
        proof { lemma_xsites_take(ixs, f, k as int); lemma_xentries_take(ixs, h, k as int); lemma_xtally_take(ixs, g, k as int); }
        let exchange = &exchanges[k];
        assert(*exchange.request == events[ixs[k as int].0]);
        let ghost before_views = entry_views(sink.found());
        let level = match exchange.params {
            Some(params) => match params.get("_meta") {
                Some(meta) => meta.get("io.modelcontextprotocol/logLevel"),
                None => None,
            },
            None => None,
        };
        if let Some(level) = level {
            let known = match level.as_str() {
                Some(name) => is_level(name),
                None => false,
            };
            if !known {
                sink.examined();
                let payload = exchange.response.message_payload().unwrap();
                let code = match payload.get("error") {
                    Some(error) => match error.get("code") {
                        Some(c) => c.as_i64(),
                        None => None,
                    },
                    None => None,
                };
                if code != Some(-32602i64) {
                    let mut d = owned("the request declared log level ");
                    let shown = level.to_text();
                    push_text(&mut d, shown.as_str());
                    push_text(&mut d, ", which is not one of the eight RFC 5424 levels, and drew ");
                    match code {
                        Some(c) => {
                            push_text(&mut d, "error ");
                            let t = i64_text(c);
                            push_text(&mut d, t.as_str());
                        },
                        None => push_text(&mut d, "a result"),
                    }
                    push_text(&mut d, " rather than -32602");
                    proof {
                        assert(d@ == "the request declared log level "@
                            + json_text(requested_level(events, ixs[k as int].0).unwrap())
                            + ", which is not one of the eight RFC 5424 levels, and drew "@
                            + match response_code(events, ixs[k as int].1) {
                                Some(c) => "error "@ + crate::text::signed_decimal(c),
                                None => "a result"@,
                            } + " rather than -32602"@);
                    }
                    sink.push(Some(exchange.response.seq), d);
                }
            }
        }
        assert(entry_views(sink.found()) =~= before_views + invalid_level_entry(events, ixs[k as int]));
        k = k + 1;
    }
    proof { lemma_xsites_all(ixs, f); lemma_xentries_all(ixs, h); lemma_xtally_all(ixs, g); }
}

} // verus!
