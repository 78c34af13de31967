//! Checks for the `2025-11-25` server-utilities requirements: logging
//! (`LOG-*`), completion (`COMP-*`) and pagination (`PAGE-*`).

use vstd::prelude::*;
use crate::checks::after_counting;
use crate::checks::sites::{tally, xtally, lemma_tally_take, lemma_xtally_take, lemma_tally_all, lemma_xtally_all};
use crate::checks::{FindingSink, entry_seqs};
use crate::checks::sites::{sites, lemma_sites_take, lemma_sites_all, xsites, lemma_xsites_take, lemma_xsites_all};
use crate::checks::support::{Declaration, server_capability, server_declaration, path_view};
use crate::checks::tools::x_result;
use crate::checks::prompts::text_member;
use crate::context::{TraceContext, exchanges_are, exchange_ixs};
use crate::json::Json;
use crate::message::{MessageKind, Tag, spec_tag};
use crate::text::{owned, push_text, text_eq, debug_text};
use crate::trace::{Direction, TraceEvent};

verus! {

/// A server `notifications/message` notification.
pub open spec fn log_site(e: TraceEvent) -> Seq<Option<u64>> {
    if e.direction == Direction::ServerToClient && e.payload() is Some
        && spec_tag(e.payload().unwrap()) == Tag::Notification
        && e.payload().unwrap().at("method"@).unwrap().text() == Some("notifications/message"@) {
        seq![Some(e.seq)]
    } else {
        Seq::empty()
    }
}

/// `LOG-001`: "Servers that emit log message notifications MUST declare the
/// `logging` capability": emission is directly observable. Without an
/// `initialize` result nothing could have declared anything, and the check
/// abstains.
pub fn logging_capability_declared(context: &TraceContext<'_>, sink: &mut FindingSink)
    ensures
        crate::context::life_after(context.trace()).init.result is None
            ==> final(sink).subject_count() == Some(crate::checks::count_or_zero(old(sink).subject_count())),
        final(sink).check_id() == old(sink).check_id(),
        crate::checks::extends_with(old(sink).found(), final(sink).found(), "server emitted a log message notification without declaring the logging capability"@),
        final(sink).subject_count() == after_counting(old(sink).subject_count(),
            if server_declaration(context.trace(), seq!["logging"@]) == Declaration::Unknowable { 0 } else {
                tally(context.trace(), |e: TraceEvent| log_site(e).len()) as int
            }),
        entry_seqs(final(sink).found()) == entry_seqs(old(sink).found())
            + if server_declaration(context.trace(), seq!["logging"@]) == Declaration::Withheld {
                sites(context.trace(), |e: TraceEvent| log_site(e))
            } else {
                Seq::empty()
            },
{
    sink.examined_many(0);
    let path: Vec<&str> = vec!["logging"];
    assert(path_view(path@) =~= seq!["logging"@]);
    let declared = match server_capability(context, path.as_slice()) {
        Declaration::Declared => true,
        Declaration::Withheld => false,
        Declaration::Unknowable => {
            assert(entry_seqs(sink.found()) =~= entry_seqs(old(sink).found()) + Seq::<Option<u64>>::empty());
            return;
        },
    };
    let ghost events = context.trace();
    let ghost f = |e: TraceEvent| log_site(e);
    let n = context.len();
    let ghost g = |e: TraceEvent| log_site(e).len();
    let mut i: usize = 0;
    while i < n
        invariant
            n == events.len(),
            events == context.trace(),
            i <= n,
            f == (|e: TraceEvent| log_site(e)),
            sink.check_id() == old(sink).check_id(),
            crate::checks::extends_with(old(sink).found(), sink.found(), "server emitted a log message notification without declaring the logging capability"@),
            g == (|e: TraceEvent| log_site(e).len()),
            sink.subject_count() == after_counting(old(sink).subject_count(), tally(events.take(i as int), g) as int),
            entry_seqs(sink.found()) == entry_seqs(old(sink).found())
                + if !declared { sites(events.take(i as int), f) } else { Seq::empty() },
        decreases n - i,
    {
        proof { lemma_sites_take(events, f, i as int); lemma_tally_take(events, g, i as int); }
        let event = context.event(i);
        if event.direction == Direction::ServerToClient {
            if let Some(MessageKind::Notification { method }) = context.kind(i) {
                if text_eq(method, "notifications/message") {
                    sink.examined();
                    if !declared {
                        sink.push(Some(event.seq), owned(
                            "server emitted a log message notification without declaring the logging capability"));
                    }
                }
            }
        }
        i = i + 1;
    }
    proof { lemma_sites_all(events, f); lemma_tally_all(events, g); }
}

/// An answered `completion/complete` exchange.
pub open spec fn completion_site(events: Seq<TraceEvent>, x: (int, int)) -> Seq<Option<u64>> {
    if x_result(events, x) is Some { seq![Some(events[x.1].seq)] } else { Seq::empty() }
}

/// `COMP-001`: "Servers that support completions MUST declare the
/// `completions` capability": successfully answering `completion/complete`
/// is the observable form of support.
pub fn completion_capability_declared(context: &TraceContext<'_>, sink: &mut FindingSink)
    ensures
        crate::context::life_after(context.trace()).init.result is None
            ==> final(sink).subject_count() == Some(crate::checks::count_or_zero(old(sink).subject_count())),
        final(sink).check_id() == old(sink).check_id(),
        crate::checks::extends_with(old(sink).found(), final(sink).found(), "server answered completion/complete without declaring the completions capability"@),
        final(sink).subject_count() == after_counting(old(sink).subject_count(),
            if server_declaration(context.trace(), seq!["completions"@]) == Declaration::Unknowable { 0 } else {
                xtally(exchange_ixs(context.trace(), context.pairs(), Some("completion/complete"@), context.trace().len() as nat), |x: (int, int)| completion_site(context.trace(), x).len()) as int
            }),
        entry_seqs(final(sink).found()) == entry_seqs(old(sink).found())
            + if server_declaration(context.trace(), seq!["completions"@]) == Declaration::Withheld {
                xsites(exchange_ixs(context.trace(), context.pairs(), Some("completion/complete"@), context.trace().len() as nat),
                    |x: (int, int)| completion_site(context.trace(), x))
            } else {
                Seq::empty()
            },
{
    sink.examined_many(0);
    let path: Vec<&str> = vec!["completions"];
    assert(path_view(path@) =~= seq!["completions"@]);
    let declared = match server_capability(context, path.as_slice()) {
        Declaration::Declared => true,
        Declaration::Withheld => false,
        Declaration::Unknowable => {
            assert(entry_seqs(sink.found()) =~= entry_seqs(old(sink).found()) + Seq::<Option<u64>>::empty());
            return;
        },
    };
    let exchanges = context.exchanges_for("completion/complete");
    let ghost events = context.trace();
    let ghost ixs = exchange_ixs(context.trace(), context.pairs(), Some("completion/complete"@), context.trace().len() as nat);
    let ghost f = |x: (int, int)| completion_site(events, x);
    let ghost g = |x: (int, int)| completion_site(events, x).len();
    let mut k: usize = 0;
    while k < exchanges.len()
        invariant
            k <= exchanges@.len(),
            exchanges_are(exchanges@, events, ixs),
            f == (|x: (int, int)| completion_site(events, x)),
            sink.check_id() == old(sink).check_id(),
            crate::checks::extends_with(old(sink).found(), sink.found(), "server answered completion/complete without declaring the completions capability"@),
            g == (|x: (int, int)| completion_site(events, x).len()),
            sink.subject_count() == after_counting(old(sink).subject_count(), xtally(ixs.take(k as int), g) as int),
            entry_seqs(sink.found()) == entry_seqs(old(sink).found())
                + if !declared { xsites(ixs.take(k as int), f) } else { Seq::empty() },
        decreases exchanges@.len() - k,
    {
        proof { lemma_xsites_take(ixs, f, k as int); lemma_xtally_take(ixs, g, k as int); }
        let exchange = &exchanges[k];
        assert(*exchange.request == events[ixs[k as int].0]);
        if exchange.result.is_some() {
            sink.examined();
            if !declared {
                sink.push(Some(exchange.response.seq), owned(
                    "server answered completion/complete without declaring the completions capability"));
            }
        }
        k = k + 1;
    }
    proof { lemma_xsites_all(ixs, f); lemma_xtally_all(ixs, g); }
}

/// The list-style methods whose results may carry a `nextCursor`.
pub open spec fn paginated(m: Seq<char>) -> bool {
    m == "resources/list"@ || m == "resources/templates/list"@ || m == "prompts/list"@ || m == "tools/list"@
}

fn is_paginated(m: &str) -> (r: bool)
    ensures
        r == paginated(m@),
{
    text_eq(m, "resources/list") || text_eq(m, "resources/templates/list") || text_eq(m, "prompts/list")
        || text_eq(m, "tools/list")
}

/// The method of a request event.
pub open spec fn method_of(e: TraceEvent) -> Seq<char> {
    e.payload().unwrap().at("method"@).unwrap().text().unwrap()
}

/// The `(method, nextCursor)` a response at `i` issued, when it answers a
/// paginated request with a string `nextCursor`.
pub open spec fn issuance_at(events: Seq<TraceEvent>, pairs: Seq<Option<usize>>, i: int) -> Option<(Seq<char>, Seq<char>)> {
    match pairs[i] {
        Some(r) => {
            let m = method_of(events[r as int]);
            if paginated(m) && (events[i].payload().unwrap().at("result"@) matches Some(res)
                && text_member(res, "nextCursor"@) is Some) {
                Some((m, text_member(events[i].payload().unwrap().at("result"@).unwrap(), "nextCursor"@).unwrap()))
            } else {
                None
            }
        },
        None => None,
    }
}

/// A paginated client request presenting a cursor that is not a string, or
/// one never issued for that method before it.
pub open spec fn provenance_site(e: TraceEvent, issued: Seq<(Seq<char>, Seq<char>)>) -> Seq<Option<u64>> {
    if e.direction == Direction::ClientToServer && e.payload() is Some && spec_tag(e.payload().unwrap()) == Tag::Request
        && paginated(method_of(e)) && (e.payload().unwrap().at("params"@) matches Some(params) && params.at("cursor"@) is Some) {
        let cursor = e.payload().unwrap().at("params"@).unwrap().at("cursor"@).unwrap();
        match cursor.text() {
            None => seq![Some(e.seq)],
            Some(c) => if issued.contains((method_of(e), c)) { Seq::empty() } else { seq![Some(e.seq)] },
        }
    } else {
        Seq::empty()
    }
}

/// The cursor walk over the first `n` events: the cursors issued so far, and
/// the findings.
pub open spec fn cursor_trail(events: Seq<TraceEvent>, pairs: Seq<Option<usize>>, n: nat)
    -> (Seq<(Seq<char>, Seq<char>)>, Seq<Option<u64>>)
    decreases n,
{
    if n == 0 {
        (Seq::empty(), Seq::empty())
    } else {
        let (issued, found) = cursor_trail(events, pairs, (n - 1) as nat);
        let i = n - 1;
        let found2 = found + provenance_site(events[i], issued);
        match issuance_at(events, pairs, i) {
            Some(x) => (issued.push(x), found2),
            None => (issued, found2),
        }
    }
}

/// One subject per client request to a paginated method presenting a cursor.
pub open spec fn cursor_subject(e: TraceEvent) -> nat {
    if e.direction == Direction::ClientToServer && e.payload() is Some && spec_tag(e.payload().unwrap()) == Tag::Request
        && paginated(method_of(e)) && (e.payload().unwrap().at("params"@) matches Some(params) && params.at("cursor"@) is Some) { 1 } else { 0 }
}

/// Whether `(method, cursor)` was issued.
fn was_issued(issued: &Vec<(String, String)>, method: &str, cursor: &str) -> (r: bool)
    ensures
        r == issued@.map_values(|p: (String, String)| (p.0@, p.1@)).contains((method@, cursor@)),
{
    let ghost view = issued@.map_values(|p: (String, String)| (p.0@, p.1@));
    let mut k: usize = 0;
    while k < issued.len()
        invariant
            k <= issued@.len(),
            view == issued@.map_values(|p: (String, String)| (p.0@, p.1@)),
            forall|j: int| 0 <= j < k ==> view[j] != (method@, cursor@),
        decreases issued@.len() - k,
    {
        if text_eq(issued[k].0.as_str(), method) && text_eq(issued[k].1.as_str(), cursor) {
            assert(view[k as int] == (method@, cursor@));
            return true;
        }
        k = k + 1;
    }
    false
}

/// `PAGE-002`: clients must treat cursors as opaque tokens. The
/// trace-observable violation is provenance: a `cursor` the server never
/// issued as a `nextCursor` for that method earlier in the session is
/// fabricated, modified, or carried over from another session.
pub fn cursor_opacity(context: &TraceContext<'_>, sink: &mut FindingSink)
    ensures
        final(sink).check_id() == old(sink).check_id(),
        entry_seqs(final(sink).found()) == entry_seqs(old(sink).found())
            + cursor_trail(context.trace(), context.pairs(), context.trace().len() as nat).1,
        final(sink).subject_count() == after_counting(old(sink).subject_count(),
            tally(context.trace(), |e: TraceEvent| cursor_subject(e)) as int),
{
    sink.examined_many(0);
    let ghost events = context.trace();
    let ghost pairs = context.pairs();
    let n = context.len();
    let mut issued: Vec<(String, String)> = Vec::new();
    let ghost g = |e: TraceEvent| cursor_subject(e);
    let mut i: usize = 0;
    assert(issued@.map_values(|p: (String, String)| (p.0@, p.1@)) =~= Seq::<(Seq<char>, Seq<char>)>::empty());
    while i < n
        invariant
            n == events.len(),
            events == context.trace(),
            pairs == context.pairs(),
            i <= n,
            issued@.map_values(|p: (String, String)| (p.0@, p.1@)) == cursor_trail(events, pairs, i as nat).0,
            sink.check_id() == old(sink).check_id(),
            entry_seqs(sink.found()) == entry_seqs(old(sink).found()) + cursor_trail(events, pairs, i as nat).1,
            g == (|e: TraceEvent| cursor_subject(e)),
            sink.subject_count() == after_counting(old(sink).subject_count(), tally(events.take(i as int), g) as int),
        decreases n - i,
    {
        proof { lemma_tally_take(events, g, i as int); }
        let event = context.event(i);
        let ghost before = entry_seqs(sink.found());
        let ghost iv = issued@.map_values(|p: (String, String)| (p.0@, p.1@));
        if event.direction == Direction::ClientToServer {
            if let Some(MessageKind::Request { method, .. }) = context.kind(i) {
                if is_paginated(method) {
                    let payload = event.message_payload().unwrap();
                    let cursor = match payload.get("params") {
                        Some(params) => params.get("cursor"),
                        None => None,
                    };
                    if let Some(cursor) = cursor {
                        sink.examined();
                        match cursor.as_str() {
                            None => {
                                let mut d = owned(method);
                                push_text(&mut d, " cursor is ");
                                let t = cursor.to_text();
                                push_text(&mut d, t.as_str());
                                push_text(&mut d, ", expected an opaque string token");
                                sink.push(Some(event.seq), d);
                            },
                            Some(c) => {
                                if !was_issued(&issued, method, c) {
                                    let mut d = owned(method);
                                    push_text(&mut d, " cursor ");
                                    let q = debug_text(c);
                                    push_text(&mut d, q.as_str());
                                    push_text(&mut d, " was never issued as a nextCursor for that method in this session");
                                    sink.push(Some(event.seq), d);
                                }
                            },
                        }
                    }
                }
            }
        }
        assert(entry_seqs(sink.found()) =~= before + provenance_site(events[i as int], iv));
        if let Some(k) = context.paired(i) {
            let request = context.event(k);
            let method = match request.message_payload() {
                Some(p) => match p.get("method") {
                    Some(m) => m.as_str(),
                    None => None,
                },
                None => None,
            };
            if let Some(method) = method {
                if is_paginated(method) {
                    let next = match event.message_payload() {
                        Some(p) => match p.get("result") {
                            Some(r) => match r.get("nextCursor") {
                                Some(c) => c.as_str(),
                                None => None,
                            },
                            None => None,
                        },
                        None => None,
                    };
                    if let Some(next) = next {
                        issued.push((owned(method), owned(next)));
                        assert(issued@.map_values(|p: (String, String)| (p.0@, p.1@)) =~= iv.push((method@, next@)));
                    }
                }
            }
        }
        i = i + 1;
    }
    proof { lemma_tally_all(events, g); }
}

} // verus!
