//! `2026-07-28` message-envelope checks: `resultType`, in-flight request IDs,
//! and the error-code partition. Every check here reads message payloads only.

use vstd::prelude::*;
use crate::checks::FindingSink;
use crate::checks::sites::{sites, lemma_sites_take, lemma_sites_all};
use crate::context::TraceContext;
use crate::json::{Json, json_text};
use crate::checks::{entry_seqs, entry_views};
use crate::checks::sites::{entries, lemma_entries_take, lemma_entries_all};
use crate::text::{owned, push_text, i64_text, text_eq};
use crate::trace::{Direction, TraceEvent};

verus! {

/// The integer code of an error response, when it has one.
pub open spec fn error_code(e: TraceEvent) -> Option<int> {
    match e.payload() {
        Some(p) => match p.at("error"@) {
            Some(err) => match err.at("code"@) {
                Some(c) => c.int_value(),
                None => None,
            },
            None => None,
        },
        None => None,
    }
}

fn error_code_of(e: &TraceEvent) -> (r: Option<i64>)
    ensures
        r matches Some(c) ==> error_code(*e) == Some(c as int),
        r is None ==> error_code(*e) is None,
{
    match e.message_payload() {
        Some(p) => match p.get("error") {
            Some(err) => match err.get("code") {
                Some(c) => c.as_i64(),
                None => None,
            },
            None => None,
        },
        None => None,
    }
}

/// `-32000..=-32019`: the legacy sub-range closed to new use.
pub open spec fn in_legacy_range(c: int) -> bool { -32019 <= c <= -32000 }

/// `-32020..=-32099`: the sub-range reserved to the MCP specification.
pub open spec fn in_reserved_range(c: int) -> bool { -32099 <= c <= -32020 }

/// `-32000..=-32768`: the whole JSON-RPC reserved range.
pub open spec fn in_jsonrpc_reserved(c: int) -> bool { -32768 <= c <= -32000 }

/// The codes this revision defines in the reserved sub-range.
pub open spec fn defined_reserved(c: int) -> bool { c == -32020 || c == -32021 || c == -32022 }

/// The codes this revision withdraws.
pub open spec fn withdrawn(c: int) -> bool { c == -32002 || c == -32042 }

/// The standard JSON-RPC codes.
pub open spec fn standard(c: int) -> bool {
    c == -32700 || c == -32600 || c == -32601 || c == -32602 || c == -32603
}

/// One finding at `e` when its error code satisfies `bad`.
pub open spec fn code_site(e: TraceEvent, bad: spec_fn(int) -> bool) -> Seq<Option<u64>> {
    match error_code(e) {
        Some(c) => if bad(c) { seq![Some(e.seq)] } else { Seq::empty() },
        None => Seq::empty(),
    }
}

pub open spec fn legacy_site(e: TraceEvent) -> Seq<Option<u64>> {
    code_site(e, |c: int| in_legacy_range(c))
}

pub open spec fn reserved_site(e: TraceEvent) -> Seq<Option<u64>> {
    code_site(e, |c: int| in_reserved_range(c) && !defined_reserved(c))
}

pub open spec fn withdrawn_site(e: TraceEvent) -> Seq<Option<u64>> {
    code_site(e, |c: int| withdrawn(c))
}

pub open spec fn application_site(e: TraceEvent) -> Seq<Option<u64>> {
    code_site(e, |c: int| in_jsonrpc_reserved(c) && !(standard(c) || defined_reserved(c)
        || in_legacy_range(c) || in_reserved_range(c)))
}

/// Which error-code rule a partition check applies.
#[derive(Clone, Copy)]
pub enum CodeRule {
    Legacy,
    Reserved,
    Withdrawn,
    Application,
}

pub open spec fn rule_site(rule: CodeRule) -> spec_fn(TraceEvent) -> Seq<Option<u64>> {
    match rule {
        CodeRule::Legacy => |e: TraceEvent| legacy_site(e),
        CodeRule::Reserved => |e: TraceEvent| reserved_site(e),
        CodeRule::Withdrawn => |e: TraceEvent| withdrawn_site(e),
        CodeRule::Application => |e: TraceEvent| application_site(e),
    }
}

fn rule_breaks(rule: &CodeRule, c: i64) -> (r: bool)
    ensures
        r == match *rule {
            CodeRule::Legacy => in_legacy_range(c as int),
            CodeRule::Reserved => in_reserved_range(c as int) && !defined_reserved(c as int),
            CodeRule::Withdrawn => withdrawn(c as int),
            CodeRule::Application => in_jsonrpc_reserved(c as int) && !(standard(c as int)
                || defined_reserved(c as int) || in_legacy_range(c as int) || in_reserved_range(c as int)),
        },
{
    let legacy = -32019 <= c && c <= -32000;
    let reserved = -32099 <= c && c <= -32020;
    let defined = c == -32020 || c == -32021 || c == -32022;
    match rule {
        CodeRule::Legacy => legacy,
        CodeRule::Reserved => reserved && !defined,
        CodeRule::Withdrawn => c == -32002 || c == -32042,
        CodeRule::Application => {
            let std = c == -32700 || c == -32600 || c == -32601 || c == -32602 || c == -32603;
            -32768 <= c && c <= -32000 && !(std || defined || legacy || reserved)
        },
    }
}

/// What a finding under `rule` says of the code `c`, after the code itself.
pub open spec fn rule_tail(rule: CodeRule, c: i64) -> Seq<char> {
    match rule {
        CodeRule::Legacy =>
            " is in the legacy sub-range (-32000..-32019), which 2026-07-28 implementations are not to use"@,
        CodeRule::Reserved =>
            " is in the MCP-reserved sub-range (-32020..-32099) but is not defined by this specification"@,
        CodeRule::Withdrawn => if c == -32002 {
            " — resource not found (2025-11-25 and earlier; replaced by -32602) — must not be emitted at 2026-07-28"@
        } else {
            " — URL elicitation required (2025-11-25 only) — must not be emitted at 2026-07-28"@
        },
        CodeRule::Application =>
            " is application-defined but sits inside the JSON-RPC reserved range (-32768..-32000)"@,
    }
}

fn rule_detail(rule: &CodeRule, c: i64) -> (r: String)
    ensures
        r@ == "error code "@ + crate::text::signed_decimal(c as int) + rule_tail(*rule, c),
{
    let mut d = owned("error code ");
    let code = i64_text(c);
    push_text(&mut d, code.as_str());
    match rule {
        CodeRule::Legacy => push_text(&mut d,
            " is in the legacy sub-range (-32000..-32019), which 2026-07-28 implementations are not to use"),
        CodeRule::Reserved => push_text(&mut d,
            " is in the MCP-reserved sub-range (-32020..-32099) but is not defined by this specification"),
        CodeRule::Withdrawn => {
            if c == -32002 {
                push_text(&mut d, " — resource not found (2025-11-25 and earlier; replaced by -32602) — must not be emitted at 2026-07-28");
            } else {
                push_text(&mut d, " — URL elicitation required (2025-11-25 only) — must not be emitted at 2026-07-28");
            }
        },
        CodeRule::Application => push_text(&mut d,
            " is application-defined but sits inside the JSON-RPC reserved range (-32768..-32000)"),
    }
    d
}

/// The finding, as (seq, sentence), of a message whose error code breaks
/// `rule`.
pub open spec fn rule_entry(rule: CodeRule, e: TraceEvent) -> Seq<(Option<u64>, Seq<char>)> {
    if rule_site(rule)(e).len() > 0 {
        seq![(Some(e.seq), "error code "@ + crate::text::signed_decimal(error_code(e).unwrap())
            + rule_tail(rule, error_code(e).unwrap() as i64))]
    } else {
        Seq::empty()
    }
}

/// Reports every message whose integer error code breaks `rule`. Non-integer
/// codes are left to the clause that requires an integer.
pub fn error_code_rule(context: &TraceContext<'_>, sink: &mut FindingSink, rule: CodeRule)
    ensures
        final(sink).check_id() == old(sink).check_id(),
        final(sink).subject_count() == old(sink).subject_count(),
        entry_seqs(final(sink).found()) == entry_seqs(old(sink).found())
            + sites(context.trace(), rule_site(rule)),
        entry_views(final(sink).found()) == entry_views(old(sink).found())
            + entries(context.trace(), |e: TraceEvent| rule_entry(rule, e)),
{
    let ghost f = rule_site(rule);
    let ghost h = |e: TraceEvent| rule_entry(rule, e);
    let n = context.len();
    let mut i: usize = 0;
    while i < n
        invariant
            n == context.trace().len(),
            i <= n,
            f == rule_site(rule),
            h == (|e: TraceEvent| rule_entry(rule, e)),
            sink.check_id() == old(sink).check_id(),
            sink.subject_count() == old(sink).subject_count(),
            entry_seqs(sink.found()) == entry_seqs(old(sink).found())
                + sites(context.trace().take(i as int), f),
            entry_views(sink.found()) == entry_views(old(sink).found())
                + entries(context.trace().take(i as int), h),
        decreases n - i,
    {
        let event = context.event(i);
        proof { lemma_sites_take(context.trace(), f, i as int); lemma_entries_take(context.trace(), h, i as int); }
        match error_code_of(event) {
            Some(c) => {
                if rule_breaks(&rule, c) {
                    let detail = rule_detail(&rule, c);
                    sink.push(Some(event.seq), detail);
                }
            },
            None => {},
        }
        i = i + 1;
    }
    proof { lemma_sites_all(context.trace(), f); lemma_entries_all(context.trace(), h); }
}

/// A result is missing `resultType`, or carries one that is not a string.
pub open spec fn result_type_site(e: TraceEvent) -> Seq<Option<u64>> {
    match e.payload() {
        Some(p) => match p.at("result"@) {
            Some(r) => if r.at("resultType"@) matches Some(t) && t is Str { Seq::empty() } else { seq![Some(e.seq)] },
            None => Seq::empty(),
        },
        None => Seq::empty(),
    }
}

/// The finding, as (seq, sentence), of a result missing `resultType` or
/// carrying one that is not a string.
pub open spec fn result_type_entry(e: TraceEvent) -> Seq<(Option<u64>, Seq<char>)> {
    match e.payload() {
        Some(p) => match p.at("result"@) {
            Some(r) => match r.at("resultType"@) {
                None => seq![(Some(e.seq), "result has no `resultType`; 2026-07-28 requires it on every result"@)],
                Some(t) => if t is Str {
                    Seq::empty()
                } else {
                    seq![(Some(e.seq), "`resultType` is present but not a string"@)]
                },
            },
            None => Seq::empty(),
        },
        None => Seq::empty(),
    }
}

/// `BASE-048`: every result carries a string `resultType`.
pub fn result_type_present(context: &TraceContext<'_>, sink: &mut FindingSink)
    ensures
        final(sink).check_id() == old(sink).check_id(),
        final(sink).subject_count() == old(sink).subject_count(),
        entry_seqs(final(sink).found()) == entry_seqs(old(sink).found())
            + sites(context.trace(), |e: TraceEvent| result_type_site(e)),
        entry_views(final(sink).found()) == entry_views(old(sink).found())
            + entries(context.trace(), |e: TraceEvent| result_type_entry(e)),
{
    let ghost f = |e: TraceEvent| result_type_site(e);
    let ghost h = |e: TraceEvent| result_type_entry(e);
    let n = context.len();
    let mut i: usize = 0;
    while i < n
        invariant
            n == context.trace().len(),
            i <= n,
            f == (|e: TraceEvent| result_type_site(e)),
            h == (|e: TraceEvent| result_type_entry(e)),
            sink.check_id() == old(sink).check_id(),
            sink.subject_count() == old(sink).subject_count(),
            entry_seqs(sink.found()) == entry_seqs(old(sink).found())
                + sites(context.trace().take(i as int), f),
            entry_views(sink.found()) == entry_views(old(sink).found()) + entries(context.trace().take(i as int), h),
        decreases n - i,
    {
        let event = context.event(i);
        proof { lemma_sites_take(context.trace(), f, i as int); lemma_entries_take(context.trace(), h, i as int); }
        if let Some(payload) = event.message_payload() {
            if let Some(result) = payload.get("result") {
                match result.get("resultType") {
                    None => sink.push(Some(event.seq),
                        owned("result has no `resultType`; 2026-07-28 requires it on every result")),
                    Some(t) => if !t.is_string() {
                        sink.push(Some(event.seq), owned("`resultType` is present but not a string"));
                    },
                }
            }
        }
        i = i + 1;
    }
    proof { lemma_sites_all(context.trace(), f); lemma_entries_all(context.trace(), h); }
}

/// The in-flight request ids, as (sent by the client, id text) pairs.
pub open spec fn in_flight_step(out: Set<(bool, Seq<char>)>, e: TraceEvent) -> (Set<(bool, Seq<char>)>, Seq<Option<u64>>) {
    match e.payload() {
        Some(p) => match p.at("id"@) {
            Some(id) => if id is Null {
                (out, Seq::empty())
            } else {
                let key = (e.direction == Direction::ClientToServer, json_text(id));
                if p.at("method"@) is Some {
                    if out.contains(key) { (out, seq![Some(e.seq)]) } else { (out.insert(key), Seq::empty()) }
                } else {
                    (out.remove((!key.0, key.1)), Seq::empty())
                }
            },
            None => (out, Seq::empty()),
        },
        None => (out, Seq::empty()),
    }
}

/// The ids in flight and the findings after `events`.
pub open spec fn in_flight_after(events: Seq<TraceEvent>) -> (Set<(bool, Seq<char>)>, Seq<Option<u64>>)
    decreases events.len(),
{
    if events.len() == 0 {
        (Set::empty(), Seq::empty())
    } else {
        let prev = in_flight_after(events.drop_last());
        let next = in_flight_step(prev.0, events.last());
        (next.0, prev.1 + next.1)
    }
}

/// Whether `keys` holds exactly the pairs of `set`, once each.
spec fn keys_are(keys: Seq<(bool, String)>, set: Set<(bool, Seq<char>)>) -> bool {
    &&& forall|k: (bool, Seq<char>)| set.contains(k) <==> exists|j: int| 0 <= j < keys.len() && (keys[j].0, keys[j].1@) == k
    &&& forall|a: int, b: int| 0 <= a < b < keys.len() ==> (keys[a].0, keys[a].1@) != (keys[b].0, keys[b].1@)
}

fn key_position(keys: &Vec<(bool, String)>, client: bool, text: &str) -> (r: Option<usize>)
    ensures
        r matches Some(j) ==> j < keys@.len() && keys@[j as int].0 == client && keys@[j as int].1@ == text@,
        r is None ==> forall|j: int| 0 <= j < keys@.len() ==> !(keys@[j].0 == client && keys@[j].1@ == text@),
{
    let mut j: usize = 0;
    while j < keys.len()
        invariant
            j <= keys@.len(),
            forall|k: int| 0 <= k < j ==> !(keys@[k].0 == client && keys@[k].1@ == text@),
        decreases keys@.len() - j,
    {
        if keys[j].0 == client && text_eq(keys[j].1.as_str(), text) {
            return Some(j);
        }
        j = j + 1;
    }
    None
}

/// `BASE-045`: a request id must not collide with one still outstanding for
/// the same sender; a response clears the peer's outstanding id.
pub fn request_id_unique_in_flight(context: &TraceContext<'_>, sink: &mut FindingSink)
    ensures
        final(sink).check_id() == old(sink).check_id(),
        final(sink).subject_count() == old(sink).subject_count(),
        entry_seqs(final(sink).found()) == entry_seqs(old(sink).found())
            + in_flight_after(context.trace()).1,
{
    let mut keys: Vec<(bool, String)> = Vec::new();
    let n = context.len();
    let mut i: usize = 0;
    while i < n
        invariant
            n == context.trace().len(),
            i <= n,
            keys_are(keys@, in_flight_after(context.trace().take(i as int)).0),
            sink.check_id() == old(sink).check_id(),
            sink.subject_count() == old(sink).subject_count(),
            entry_seqs(sink.found()) == entry_seqs(old(sink).found())
                + in_flight_after(context.trace().take(i as int)).1,
        decreases n - i,
    {
        let event = context.event(i);
        let ghost events = context.trace();
        proof {
            assert(events.take(i + 1).drop_last() =~= events.take(i as int));
        }
        let ghost before = in_flight_after(events.take(i as int));
        let ghost step = in_flight_step(before.0, events[i as int]);
        if let Some(payload) = event.message_payload() {
            if let Some(id) = payload.get("id") {
                if !id.is_null() {
                    let client = event.direction == Direction::ClientToServer;
                    let text = id.to_text();
                    if payload.get("method").is_some() {
                        match key_position(&keys, client, text.as_str()) {
                            Some(_) => {
                                let mut d = owned("request id ");
                                push_text(&mut d, text.as_str());
                                push_text(&mut d, " is already outstanding for this sender; 2026-07-28 forbids reusing an id before its response");
                                sink.push(Some(event.seq), d);
                            },
                            None => {
                                let ghost old_keys = keys@;
                                keys.push((client, text));
                                proof {
                                    let key = (client, json_text(*id));
                                    assert forall|k: (bool, Seq<char>)| step.0.contains(k) <==>
                                        exists|j: int| 0 <= j < keys@.len() && (keys@[j].0, keys@[j].1@) == k
                                    by {
                                        if k == key {
                                            assert((keys@[old_keys.len() as int].0, keys@[old_keys.len() as int].1@) == k);
                                        } else if exists|j: int| 0 <= j < keys@.len() && (keys@[j].0, keys@[j].1@) == k {
                                            let j = choose|j: int| 0 <= j < keys@.len() && (keys@[j].0, keys@[j].1@) == k;
                                            assert(old_keys[j] == keys@[j]);
                                        } else if before.0.contains(k) {
                                            let j = choose|j: int| 0 <= j < old_keys.len() && (old_keys[j].0, old_keys[j].1@) == k;
                                            assert(keys@[j] == old_keys[j]);
                                        }
                                    }
                                }
                            },
                        }
                    } else {
                        match key_position(&keys, !client, text.as_str()) {
                            Some(j) => {
                                let ghost old_keys = keys@;
                                keys.remove(j);
                                proof {
                                    let key = (!client, json_text(*id));
                                    assert forall|k: (bool, Seq<char>)| step.0.contains(k) <==>
                                        exists|m: int| 0 <= m < keys@.len() && (keys@[m].0, keys@[m].1@) == k
                                    by {
                                        if exists|m: int| 0 <= m < keys@.len() && (keys@[m].0, keys@[m].1@) == k {
                                            let m = choose|m: int| 0 <= m < keys@.len() && (keys@[m].0, keys@[m].1@) == k;
                                            if m < j { assert(keys@[m] == old_keys[m]); } else { assert(keys@[m] == old_keys[m + 1]); }
                                        } else if before.0.contains(k) && k != key {
                                            let m = choose|m: int| 0 <= m < old_keys.len() && (old_keys[m].0, old_keys[m].1@) == k;
                                            if m < j { assert(keys@[m] == old_keys[m]); }
                                            else if m > j { assert(keys@[m - 1] == old_keys[m]); }
                                        }
                                    }
                                }
                            },
                            None => {},
                        }
                    }
                }
            }
        }
        i = i + 1;
    }
    assert(context.trace().take(n as int) =~= context.trace());
}

} // verus!
