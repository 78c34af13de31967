//! Server capability declarations at `2026-07-28`.
//!
//! Every feature page states "Servers that support X MUST declare the X
//! capability". This revision has no `initialize`: the declaration surface is
//! the `server/discover` result, so that is what these read. A session that
//! never probed carries no declaration, and silence is not a denial.

use vstd::prelude::*;
use crate::checks::after_counting;
use crate::checks::sites::{tally, xtally, lemma_tally_take, lemma_xtally_take, lemma_tally_all, lemma_xtally_all};
use crate::checks::{FindingSink, entry_seqs, entry_views, extends_with, lemma_uniform_details};
use crate::checks::sites::{sites, lemma_sites_take, lemma_sites_all, xsites, lemma_xsites_take, lemma_xsites_all};
use crate::checks::caching::x_result;
use crate::checks::logging::{is_log, response_code};
use crate::context::{TraceContext, exchange_ixs, exchanges_are};
use crate::json::Json;
use crate::message::MessageKind;
use crate::text::{owned, push_text, text_eq};
use crate::trace::{Direction, TraceEvent};

verus! {

/// The `result` of the first exchange at `ixs` that succeeded.
pub open spec fn first_result(events: Seq<TraceEvent>, ixs: Seq<(int, int)>) -> Option<Json>
    decreases ixs.len(),
{
    if ixs.len() == 0 {
        None
    } else {
        match first_result(events, ixs.drop_last()) {
            Some(r) => Some(r),
            None => x_result(events, ixs.last().1),
        }
    }
}

/// The `server/discover` exchanges of a trace.
pub open spec fn discover_ixs(events: Seq<TraceEvent>, pairs: Seq<Option<usize>>) -> Seq<(int, int)> {
    exchange_ixs(events, pairs, Some("server/discover"@), events.len() as nat)
}

/// Whether the server declared `capability` in its first `server/discover`
/// result: `None` when there is no such result; otherwise declared when the key
/// resolves to something that is neither `false` nor `null`.
pub open spec fn declares_spec(events: Seq<TraceEvent>, pairs: Seq<Option<usize>>, capability: Seq<char>) -> Option<bool> {
    match first_result(events, discover_ixs(events, pairs)) {
        None => None,
        Some(r) => match r.at("capabilities"@) {
            None => Some(false),
            Some(c) => Some(c.at(capability) matches Some(v) && !(v is Null) && v != Json::Bool(false)),
        },
    }
}

/// Whether the server declared `capability`, or `None` when the trace carries
/// no `server/discover` result to read a declaration from.
fn declares(context: &TraceContext<'_>, capability: &str) -> (r: Option<bool>)
    ensures
        r == declares_spec(context.trace(), context.pairs(), capability@),
{
    let exchanges = context.exchanges_for("server/discover");
    let ghost events = context.trace();
    let ghost ixs = discover_ixs(context.trace(), context.pairs());
    let mut found: Option<&Json> = None;
    let mut k: usize = 0;
    while k < exchanges.len()
        invariant
            k <= exchanges@.len(),
            exchanges_are(exchanges@, events, ixs),
            match found {
                Some(r) => first_result(events, ixs.take(k as int)) == Some(*r),
                None => first_result(events, ixs.take(k as int)) is None,
            },
        decreases exchanges@.len() - k,
    {
        proof { assert(ixs.take(k + 1).drop_last() =~= ixs.take(k as int)); }
        assert(*exchanges[k as int].request == events[ixs[k as int].0]);
        if found.is_none() {
            found = exchanges[k].result;
        }
        k = k + 1;
    }
    proof { assert(ixs.take(ixs.len() as int) =~= ixs); }
    let result = match found {
        Some(r) => r,
        None => return None,
    };
    match result.get("capabilities") {
        None => Some(false),
        Some(capabilities) => Some(match capabilities.get(capability) {
            Some(value) => !value.is_null() && !value.is_false(),
            None => false,
        }),
    }
}

/// An answered request while the capability was declared absent.
pub open spec fn undeclared_answer_site(events: Seq<TraceEvent>, declared: Option<bool>, x: (int, int)) -> Seq<Option<u64>> {
    if declared == Some(false) && x_result(events, x.1) is Some {
        seq![Some(events[x.1].seq)]
    } else {
        Seq::empty()
    }
}

/// The findings for answered `method` requests under a declaration.
pub open spec fn undeclared_sites(events: Seq<TraceEvent>, pairs: Seq<Option<usize>>, capability: Seq<char>, method: Seq<char>) -> Seq<Option<u64>> {
    xsites(exchange_ixs(events, pairs, Some(method), events.len() as nat),
        |x: (int, int)| undeclared_answer_site(events, declares_spec(events, pairs, capability), x))
}

/// One subject per answered exchange.
pub open spec fn answered_subject(events: Seq<TraceEvent>, x: (int, int)) -> nat {
    if x_result(events, x.1) is Some { 1 } else { 0 }
}

/// The answered `method` exchanges of a trace.
pub open spec fn answered_count(events: Seq<TraceEvent>, pairs: Seq<Option<usize>>, method: Seq<char>) -> nat {
    xtally(exchange_ixs(events, pairs, Some(method), events.len() as nat), |x: (int, int)| answered_subject(events, x))
}

/// The `method` exchanges of a trace, when `capability` is declared; none
/// otherwise.
pub open spec fn listed_count(events: Seq<TraceEvent>, pairs: Seq<Option<usize>>, capability: Seq<char>, method: Seq<char>) -> nat {
    xtally(exchange_ixs(events, pairs, Some(method), events.len() as nat),
        |x: (int, int)| if declares_spec(events, pairs, capability) == Some(true) { 1nat } else { 0nat })
}

/// One subject per `tools/call` result embedding a resource.
pub open spec fn embedding_subject(events: Seq<TraceEvent>, x: (int, int)) -> nat {
    if embeds_resource(x_result(events, x.1)) { 1 } else { 0 }
}

/// The sentence of an answered `method` request under an absent `capability`.
pub open spec fn undeclared_text(capability: Seq<char>, method: Seq<char>) -> Seq<char> {
    "server answered `"@ + method + "` while its `server/discover` result declared no `"@
        + capability + "` capability"@
}

/// The findings, as (seq, sentence), for answered `method` requests under an
/// absent `capability`.
pub open spec fn undeclared_entries(events: Seq<TraceEvent>, pairs: Seq<Option<usize>>, capability: Seq<char>, method: Seq<char>)
    -> Seq<(Option<u64>, Seq<char>)>
{
    undeclared_sites(events, pairs, capability, method).map_values(
        |s: Option<u64>| (s, undeclared_text(capability, method)))
}

/// Reports every `method` request the server answered while `capability` was
/// declared absent: answering is the observable form of supporting a feature.
fn answered_undeclared(context: &TraceContext<'_>, sink: &mut FindingSink, capability: &str, method: &str, declared: Option<bool>)
    requires
        declared == declares_spec(context.trace(), context.pairs(), capability@),
    ensures
        final(sink).check_id() == old(sink).check_id(),
        final(sink).subject_count() == after_counting(old(sink).subject_count(),
            xtally(exchange_ixs(context.trace(), context.pairs(), Some(method@), context.trace().len() as nat), |x: (int, int)| answered_subject(context.trace(), x)) as int),
        entry_seqs(final(sink).found()) == entry_seqs(old(sink).found())
            + undeclared_sites(context.trace(), context.pairs(), capability@, method@),
        entry_views(final(sink).found()) == entry_views(old(sink).found())
            + undeclared_entries(context.trace(), context.pairs(), capability@, method@),
{
    sink.examined_many(0);
    let exchanges = context.exchanges_for(method);
    let ghost events = context.trace();
    let ghost ixs = exchange_ixs(context.trace(), context.pairs(), Some(method@), context.trace().len() as nat);
    let ghost f = |x: (int, int)| undeclared_answer_site(events, declared, x);
    let ghost g = |x: (int, int)| answered_subject(events, x);
    let mut k: usize = 0;
    while k < exchanges.len()
        invariant
            k <= exchanges@.len(),
            exchanges_are(exchanges@, events, ixs),
            f == (|x: (int, int)| undeclared_answer_site(events, declared, x)),
            sink.check_id() == old(sink).check_id(),
            extends_with(old(sink).found(), sink.found(), undeclared_text(capability@, method@)),
            g == (|x: (int, int)| answered_subject(events, x)),
            sink.subject_count() == after_counting(old(sink).subject_count(), xtally(ixs.take(k as int), g) as int),
            entry_seqs(sink.found()) == entry_seqs(old(sink).found()) + xsites(ixs.take(k as int), f),
        decreases exchanges@.len() - k,
    {
        proof { lemma_xsites_take(ixs, f, k as int); lemma_xtally_take(ixs, g, k as int); }
        let exchange = &exchanges[k];
        assert(*exchange.request == events[ixs[k as int].0]);
        if exchange.result.is_some() {
            sink.examined();
            if declared == Some(false) {
                let mut d = owned("server answered `");
                push_text(&mut d, method);
                push_text(&mut d, "` while its `server/discover` result declared no `");
                push_text(&mut d, capability);
                push_text(&mut d, "` capability");
                sink.push(Some(exchange.response.seq), d);
            }
        }
        k = k + 1;
    }
    proof {
        lemma_xsites_all(ixs, f);
        lemma_xtally_all(ixs, g);
        lemma_uniform_details(old(sink).found(), sink.found(), undeclared_text(capability@, method@),
            undeclared_sites(events, context.pairs(), capability@, method@));
    }
}

/// `COMP-007`: a server answering completions declares `completions`.
pub fn completions_declared(context: &TraceContext<'_>, sink: &mut FindingSink)
    ensures
        final(sink).check_id() == old(sink).check_id(),
        final(sink).subject_count() == after_counting(old(sink).subject_count(), answered_count(context.trace(), context.pairs(), "completion/complete"@) as int),
        entry_seqs(final(sink).found()) == entry_seqs(old(sink).found())
            + undeclared_sites(context.trace(), context.pairs(), "completions"@, "completion/complete"@),
        entry_views(final(sink).found()) == entry_views(old(sink).found())
            + undeclared_entries(context.trace(), context.pairs(), "completions"@, "completion/complete"@),
{
    let declared = declares(context, "completions");
    answered_undeclared(context, sink, "completions", "completion/complete", declared);
}

/// `TOOL-016`: a server serving tools declares `tools`.
pub fn tools_declared(context: &TraceContext<'_>, sink: &mut FindingSink)
    ensures
        final(sink).check_id() == old(sink).check_id(),
        final(sink).subject_count() == after_counting(old(sink).subject_count(), (answered_count(context.trace(), context.pairs(), "tools/list"@) + answered_count(context.trace(), context.pairs(), "tools/call"@)) as int),
        entry_seqs(final(sink).found()) == entry_seqs(old(sink).found())
            + undeclared_sites(context.trace(), context.pairs(), "tools"@, "tools/list"@)
            + undeclared_sites(context.trace(), context.pairs(), "tools"@, "tools/call"@),
        entry_views(final(sink).found()) == entry_views(old(sink).found())
            + undeclared_entries(context.trace(), context.pairs(), "tools"@, "tools/list"@)
            + undeclared_entries(context.trace(), context.pairs(), "tools"@, "tools/call"@),
{
    let declared = declares(context, "tools");
    answered_undeclared(context, sink, "tools", "tools/list", declared);
    answered_undeclared(context, sink, "tools", "tools/call", declared);
}

/// `RES-012`: a server serving resources declares `resources`.
pub fn resources_declared(context: &TraceContext<'_>, sink: &mut FindingSink)
    ensures
        final(sink).check_id() == old(sink).check_id(),
        final(sink).subject_count() == after_counting(old(sink).subject_count(), (answered_count(context.trace(), context.pairs(), "resources/list"@) + answered_count(context.trace(), context.pairs(), "resources/templates/list"@) + answered_count(context.trace(), context.pairs(), "resources/read"@)) as int),
        entry_seqs(final(sink).found()) == entry_seqs(old(sink).found())
            + undeclared_sites(context.trace(), context.pairs(), "resources"@, "resources/list"@)
            + undeclared_sites(context.trace(), context.pairs(), "resources"@, "resources/templates/list"@)
            + undeclared_sites(context.trace(), context.pairs(), "resources"@, "resources/read"@),
        entry_views(final(sink).found()) == entry_views(old(sink).found())
            + undeclared_entries(context.trace(), context.pairs(), "resources"@, "resources/list"@)
            + undeclared_entries(context.trace(), context.pairs(), "resources"@, "resources/templates/list"@)
            + undeclared_entries(context.trace(), context.pairs(), "resources"@, "resources/read"@),
{
    let declared = declares(context, "resources");
    answered_undeclared(context, sink, "resources", "resources/list", declared);
    answered_undeclared(context, sink, "resources", "resources/templates/list", declared);
    answered_undeclared(context, sink, "resources", "resources/read", declared);
}

/// `PROM-012`: a server serving prompts declares `prompts`.
pub fn prompts_declared(context: &TraceContext<'_>, sink: &mut FindingSink)
    ensures
        final(sink).check_id() == old(sink).check_id(),
        final(sink).subject_count() == after_counting(old(sink).subject_count(), (answered_count(context.trace(), context.pairs(), "prompts/list"@) + answered_count(context.trace(), context.pairs(), "prompts/get"@)) as int),
        entry_seqs(final(sink).found()) == entry_seqs(old(sink).found())
            + undeclared_sites(context.trace(), context.pairs(), "prompts"@, "prompts/list"@)
            + undeclared_sites(context.trace(), context.pairs(), "prompts"@, "prompts/get"@),
        entry_views(final(sink).found()) == entry_views(old(sink).found())
            + undeclared_entries(context.trace(), context.pairs(), "prompts"@, "prompts/list"@)
            + undeclared_entries(context.trace(), context.pairs(), "prompts"@, "prompts/get"@),
{
    let declared = declares(context, "prompts");
    answered_undeclared(context, sink, "prompts", "prompts/list", declared);
    answered_undeclared(context, sink, "prompts", "prompts/get", declared);
}

/// A server log notification while `logging` was declared absent.
pub open spec fn undeclared_log_site(declared: Option<bool>, e: TraceEvent) -> Seq<Option<u64>> {
    if declared == Some(false) && is_log(e) {
        seq![Some(e.seq)]
    } else {
        Seq::empty()
    }
}

/// `LOG-007`: a server emitting log notifications declares `logging`. Logging
/// has no request of its own at this revision, so the observable form is the
/// notification itself.
pub fn logging_declared(context: &TraceContext<'_>, sink: &mut FindingSink)
    ensures
        final(sink).check_id() == old(sink).check_id(),
        crate::checks::extends_with(old(sink).found(), final(sink).found(), "server emitted `notifications/message` while its `server/discover` result declared no `logging` capability"@),
        final(sink).subject_count() == after_counting(old(sink).subject_count(),
            tally(context.trace(), |e: TraceEvent| crate::checks::logging::log_subject(e)) as int),
        entry_seqs(final(sink).found()) == entry_seqs(old(sink).found()) + sites(context.trace(),
            |e: TraceEvent| undeclared_log_site(declares_spec(context.trace(), context.pairs(), "logging"@), e)),
{
    sink.examined_many(0);
    let declared = declares(context, "logging");
    let ghost events = context.trace();
    let ghost f = |e: TraceEvent| undeclared_log_site(declared, e);
    let n = context.len();
    let ghost g = |e: TraceEvent| crate::checks::logging::log_subject(e);
    let mut i: usize = 0;
    proof { reveal_strlit("notifications/message"); }
    while i < n
        invariant
            n == events.len(),
            events == context.trace(),
            i <= n,
            f == (|e: TraceEvent| undeclared_log_site(declared, e)),
            sink.check_id() == old(sink).check_id(),
            crate::checks::extends_with(old(sink).found(), sink.found(), "server emitted `notifications/message` while its `server/discover` result declared no `logging` capability"@),
            g == (|e: TraceEvent| crate::checks::logging::log_subject(e)),
            sink.subject_count() == after_counting(old(sink).subject_count(), tally(events.take(i as int), g) as int),
            entry_seqs(sink.found()) == entry_seqs(old(sink).found()) + sites(events.take(i as int), f),
        decreases n - i,
    {
        proof { lemma_sites_take(events, f, i as int); lemma_tally_take(events, g, i as int); }
        let event = context.event(i);
        if event.direction == Direction::ServerToClient {
            if let Some(MessageKind::Notification { method }) = context.kind(i) {
                if text_eq(method, "notifications/message") {
                    sink.examined();
                    if declared == Some(false) {
                        sink.push(Some(event.seq), owned(
                            "server emitted `notifications/message` while its `server/discover` result declared no `logging` capability"));
                    }
                }
            }
        }
        i = i + 1;
    }
    proof { lemma_sites_all(events, f); lemma_tally_all(events, g); }
}

/// A declared capability's list operation refused as unimplemented.
pub open spec fn unserved_list_site(events: Seq<TraceEvent>, declared: Option<bool>, x: (int, int)) -> Seq<Option<u64>> {
    if declared == Some(true) && response_code(events, x.1) == Some(-32601int) {
        seq![Some(events[x.1].seq)]
    } else {
        Seq::empty()
    }
}

/// The findings for a declared capability whose list operation `method` the
/// server refused with `-32601`.
pub open spec fn unserved_list_sites(events: Seq<TraceEvent>, pairs: Seq<Option<usize>>, capability: Seq<char>, method: Seq<char>) -> Seq<Option<u64>> {
    xsites(exchange_ixs(events, pairs, Some(method), events.len() as nat),
        |x: (int, int)| unserved_list_site(events, declares_spec(events, pairs, capability), x))
}

/// The sentence of a declared `capability` whose list operation `method` was
/// refused with `-32601`.
pub open spec fn unserved_text(capability: Seq<char>, method: Seq<char>) -> Seq<char> {
    "server declared the `"@ + capability + "` capability but answered `"@ + method
        + "` with -32601; a declared capability must be served"@
}

/// The findings, as (seq, sentence), for a declared `capability` whose list
/// operation `method` was refused with `-32601`.
pub open spec fn unserved_entries(events: Seq<TraceEvent>, pairs: Seq<Option<usize>>, capability: Seq<char>, method: Seq<char>)
    -> Seq<(Option<u64>, Seq<char>)>
{
    unserved_list_sites(events, pairs, capability, method).map_values(
        |s: Option<u64>| (s, unserved_text(capability, method)))
}

/// Reports a declared capability whose list operation the server refused as an
/// unimplemented method.
fn declared_list_answered(context: &TraceContext<'_>, sink: &mut FindingSink, capability: &str, method: &str)
    ensures
        final(sink).check_id() == old(sink).check_id(),
        final(sink).subject_count() == after_counting(old(sink).subject_count(),
            xtally(exchange_ixs(context.trace(), context.pairs(), Some(method@), context.trace().len() as nat), |x: (int, int)| if declares_spec(context.trace(), context.pairs(), capability@) == Some(true) { 1nat } else { 0nat }) as int),
        entry_seqs(final(sink).found()) == entry_seqs(old(sink).found())
            + unserved_list_sites(context.trace(), context.pairs(), capability@, method@),
        entry_views(final(sink).found()) == entry_views(old(sink).found())
            + unserved_entries(context.trace(), context.pairs(), capability@, method@),
{
    sink.examined_many(0);
    let declared = declares(context, capability);
    let exchanges = context.exchanges_for(method);
    let ghost events = context.trace();
    let ghost ixs = exchange_ixs(context.trace(), context.pairs(), Some(method@), context.trace().len() as nat);
    let ghost f = |x: (int, int)| unserved_list_site(events, declared, x);
    let ghost g = |x: (int, int)| if declared == Some(true) { 1nat } else { 0nat };
    let mut k: usize = 0;
    while k < exchanges.len()
        invariant
            k <= exchanges@.len(),
            exchanges_are(exchanges@, events, ixs),
            f == (|x: (int, int)| unserved_list_site(events, declared, x)),
            sink.check_id() == old(sink).check_id(),
            extends_with(old(sink).found(), sink.found(), unserved_text(capability@, method@)),
            g == (|x: (int, int)| if declared == Some(true) { 1nat } else { 0nat }),
            sink.subject_count() == after_counting(old(sink).subject_count(), xtally(ixs.take(k as int), g) as int),
            entry_seqs(sink.found()) == entry_seqs(old(sink).found()) + xsites(ixs.take(k as int), f),
        decreases exchanges@.len() - k,
    {
        proof { lemma_xsites_take(ixs, f, k as int); lemma_xtally_take(ixs, g, k as int); }
        let exchange = &exchanges[k];
        assert(*exchange.request == events[ixs[k as int].0]);
        if declared == Some(true) {
            sink.examined();
            let payload = exchange.response.message_payload().unwrap();
            let code = match payload.get("error") {
                Some(error) => match error.get("code") {
                    Some(c) => c.as_i64(),
                    None => None,
                },
                None => None,
            };
            if code == Some(-32601i64) {
                let mut d = owned("server declared the `");
                push_text(&mut d, capability);
                push_text(&mut d, "` capability but answered `");
                push_text(&mut d, method);
                push_text(&mut d, "` with -32601; a declared capability must be served");
                sink.push(Some(exchange.response.seq), d);
            }
        }
        k = k + 1;
    }
    proof {
        lemma_xsites_all(ixs, f);
        lemma_xtally_all(ixs, g);
        lemma_uniform_details(old(sink).found(), sink.found(), unserved_text(capability@, method@),
            unserved_list_sites(events, context.pairs(), capability@, method@));
    }
}

/// `TOOL-020`: a declared `tools` capability answers `tools/list`.
pub fn tools_list_implemented(context: &TraceContext<'_>, sink: &mut FindingSink)
    ensures
        final(sink).check_id() == old(sink).check_id(),
        final(sink).subject_count() == after_counting(old(sink).subject_count(), listed_count(context.trace(), context.pairs(), "tools"@, "tools/list"@) as int),
        entry_seqs(final(sink).found()) == entry_seqs(old(sink).found())
            + unserved_list_sites(context.trace(), context.pairs(), "tools"@, "tools/list"@),
        entry_views(final(sink).found()) == entry_views(old(sink).found())
            + unserved_entries(context.trace(), context.pairs(), "tools"@, "tools/list"@),
{
    declared_list_answered(context, sink, "tools", "tools/list");
}

/// `RES-013`: a declared `resources` capability answers `resources/list`.
pub fn resources_list_implemented(context: &TraceContext<'_>, sink: &mut FindingSink)
    ensures
        final(sink).check_id() == old(sink).check_id(),
        final(sink).subject_count() == after_counting(old(sink).subject_count(), listed_count(context.trace(), context.pairs(), "resources"@, "resources/list"@) as int),
        entry_seqs(final(sink).found()) == entry_seqs(old(sink).found())
            + unserved_list_sites(context.trace(), context.pairs(), "resources"@, "resources/list"@),
        entry_views(final(sink).found()) == entry_views(old(sink).found())
            + unserved_entries(context.trace(), context.pairs(), "resources"@, "resources/list"@),
{
    declared_list_answered(context, sink, "resources", "resources/list");
}

/// `PROM-013`: a declared `prompts` capability answers `prompts/list`.
pub fn prompts_list_implemented(context: &TraceContext<'_>, sink: &mut FindingSink)
    ensures
        final(sink).check_id() == old(sink).check_id(),
        final(sink).subject_count() == after_counting(old(sink).subject_count(), listed_count(context.trace(), context.pairs(), "prompts"@, "prompts/list"@) as int),
        entry_seqs(final(sink).found()) == entry_seqs(old(sink).found())
            + unserved_list_sites(context.trace(), context.pairs(), "prompts"@, "prompts/list"@),
        entry_views(final(sink).found()) == entry_views(old(sink).found())
            + unserved_entries(context.trace(), context.pairs(), "prompts"@, "prompts/list"@),
{
    declared_list_answered(context, sink, "prompts", "prompts/list");
}

/// Whether some block of `blocks` has `type` `"resource"`.
pub open spec fn has_resource_block(blocks: Seq<Json>) -> bool {
    exists|i: int| 0 <= i < blocks.len() && is_resource_block(#[trigger] blocks[i])
}

/// Whether a content block has `type` `"resource"`.
pub open spec fn is_resource_block(b: Json) -> bool {
    b.at("type"@) matches Some(t) && t.text() == Some("resource"@)
}

/// Whether a `tools/call` result embeds a resource content block.
pub open spec fn embeds_resource(result: Option<Json>) -> bool {
    result matches Some(r) && r.at("content"@) matches Some(Json::Array(blocks)) && has_resource_block(blocks@)
}

/// A `tools/call` result embedding a resource while `resources` was declared absent.
pub open spec fn embedded_site(events: Seq<TraceEvent>, declared: Option<bool>, x: (int, int)) -> Seq<Option<u64>> {
    if declared == Some(false) && embeds_resource(x_result(events, x.1)) {
        seq![Some(events[x.1].seq)]
    } else {
        Seq::empty()
    }
}

#[verifier::loop_isolation(false)]
fn embeds(result: Option<&Json>) -> (r: bool)
    ensures
        r == embeds_resource(match result { Some(v) => Some(*v), None => None }),
{
    proof { reveal_strlit("resource"); }
    let blocks = match result {
        Some(v) => match v.get("content") {
            Some(c) => match c.as_array() {
                Some(a) => a,
                None => return false,
            },
            None => return false,
        },
        None => return false,
    };
    let mut i: usize = 0;
    while i < blocks.len()
        invariant
            i <= blocks@.len(),
            forall|j: int| 0 <= j < i ==> !is_resource_block(#[trigger] blocks@[j]),
        decreases blocks@.len() - i,
    {
        let hit = match blocks[i].get("type") {
            Some(t) => match t.as_str() {
                Some(s) => text_eq(s, "resource"),
                None => false,
            },
            None => false,
        };
        if hit {
            assert(is_resource_block(blocks@[i as int]));
            return true;
        }
        i = i + 1;
    }
    false
}

/// `TOOL-038`: a server embedding resources in tool results declares
/// `resources`: a `resource` content block in a `tools/call` result is the
/// observable use.
pub fn embedded_resource_declared(context: &TraceContext<'_>, sink: &mut FindingSink)
    ensures
        final(sink).check_id() == old(sink).check_id(),
        crate::checks::extends_with(old(sink).found(), final(sink).found(), "a `tools/call` result embeds a resource while the `server/discover` result declared no `resources` capability"@),
        final(sink).subject_count() == after_counting(old(sink).subject_count(),
            xtally(exchange_ixs(context.trace(), context.pairs(), Some("tools/call"@), context.trace().len() as nat), |x: (int, int)| embedding_subject(context.trace(), x)) as int),
        entry_seqs(final(sink).found()) == entry_seqs(old(sink).found()) + xsites(
            exchange_ixs(context.trace(), context.pairs(), Some("tools/call"@), context.trace().len() as nat),
            |x: (int, int)| embedded_site(context.trace(), declares_spec(context.trace(), context.pairs(), "resources"@), x)),
{
    sink.examined_many(0);
    let declared = declares(context, "resources");
    let exchanges = context.exchanges_for("tools/call");
    let ghost events = context.trace();
    let ghost ixs = exchange_ixs(context.trace(), context.pairs(), Some("tools/call"@), context.trace().len() as nat);
    let ghost f = |x: (int, int)| embedded_site(events, declared, x);
    let ghost g = |x: (int, int)| embedding_subject(events, x);
    let mut k: usize = 0;
    while k < exchanges.len()
        invariant
            k <= exchanges@.len(),
            exchanges_are(exchanges@, events, ixs),
            f == (|x: (int, int)| embedded_site(events, declared, x)),
            sink.check_id() == old(sink).check_id(),
            crate::checks::extends_with(old(sink).found(), sink.found(), "a `tools/call` result embeds a resource while the `server/discover` result declared no `resources` capability"@),
            g == (|x: (int, int)| embedding_subject(events, x)),
            sink.subject_count() == after_counting(old(sink).subject_count(), xtally(ixs.take(k as int), g) as int),
            entry_seqs(sink.found()) == entry_seqs(old(sink).found()) + xsites(ixs.take(k as int), f),
        decreases exchanges@.len() - k,
    {
        proof { lemma_xsites_take(ixs, f, k as int); lemma_xtally_take(ixs, g, k as int); }
        let exchange = &exchanges[k];
        assert(*exchange.request == events[ixs[k as int].0]);
        if embeds(exchange.result) {
            sink.examined();
            if declared == Some(false) {
                sink.push(Some(exchange.response.seq), owned(
                    "a `tools/call` result embeds a resource while the `server/discover` result declared no `resources` capability"));
            }
        }
        k = k + 1;
    }
    proof { lemma_xsites_all(ixs, f); lemma_xtally_all(ixs, g); }
}

} // verus!
