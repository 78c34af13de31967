//! `2026-07-28` caching-hint checks.

use vstd::prelude::*;
use crate::checks::sites::{xentries, lemma_xentries_take, lemma_xentries_all};
use crate::checks::sites::{entries, lemma_entries_take, lemma_entries_all};
use crate::checks::entry_views;
use crate::checks::{FindingSink, entry_seqs};
use crate::checks::sites::{sites, lemma_sites_take, lemma_sites_all, xsites, lemma_xsites_take, lemma_xsites_all};
use crate::context::{TraceContext, exchange_ixs, exchanges_are};
use crate::json::{Json, json_text};
use crate::text::{owned, push_text, text_eq, i64_text, u64_text};
use crate::keymap::KeyMap;
use crate::trace::{Direction, TraceEvent};

verus! {

/// The methods whose `complete` results must carry caching hints.
pub open spec fn cacheable(m: Seq<char>) -> bool {
    m == "server/discover"@ || m == "tools/list"@ || m == "prompts/list"@ || m == "resources/list"@
        || m == "resources/templates/list"@ || m == "resources/read"@
}

fn is_cacheable(m: &str) -> (r: bool)
    ensures
        r == cacheable(m@),
{
    text_eq(m, "server/discover") || text_eq(m, "tools/list") || text_eq(m, "prompts/list")
        || text_eq(m, "resources/list") || text_eq(m, "resources/templates/list") || text_eq(m, "resources/read")
}

/// The method of the request at index `r`.
pub open spec fn x_method(events: Seq<TraceEvent>, r: int) -> Seq<char> {
    events[r].payload().unwrap().at("method"@).unwrap().text().unwrap()
}

/// The `params` of the request at index `r`.
pub open spec fn x_params(events: Seq<TraceEvent>, r: int) -> Option<Json> {
    events[r].payload().unwrap().at("params"@)
}

/// The `result` of the response at index `j`.
pub open spec fn x_result(events: Seq<TraceEvent>, j: int) -> Option<Json> {
    events[j].payload().unwrap().at("result"@)
}

/// A `complete` result of a cacheable request that is not the answer to a
/// retry and carries no `ttlMs`.
pub open spec fn hint_site(events: Seq<TraceEvent>, x: (int, int)) -> Seq<Option<u64>> {
    let (r, j) = x;
    if cacheable(x_method(events, r)) && x_result(events, j) is Some
        && (x_result(events, j).unwrap().at("resultType"@) matches Some(t) && t.text() == Some("complete"@))
        && !(x_params(events, r) matches Some(p) && (p.at("inputResponses"@) is Some || p.at("requestState"@) is Some))
        && x_result(events, j).unwrap().at("ttlMs"@) is None {
        seq![Some(events[j].seq)]
    } else {
        Seq::empty()
    }
}

/// The finding, as (seq, sentence), of a `complete` result of a cacheable
/// request that carries no `ttlMs`.
pub open spec fn hint_entry(events: Seq<TraceEvent>, x: (int, int)) -> Seq<(Option<u64>, Seq<char>)> {
    if hint_site(events, x).len() > 0 {
        seq![(Some(events[x.1].seq), "the `complete` result of `"@ + x_method(events, x.0)
            + "` carries no `ttlMs` caching hint"@)]
    } else {
        Seq::empty()
    }
}

/// `CACHE-*`: the `complete` result of a cacheable operation carries `ttlMs`.
pub fn hints_on_cacheable_results(context: &TraceContext<'_>, sink: &mut FindingSink)
    ensures
        final(sink).check_id() == old(sink).check_id(),
        final(sink).subject_count() == old(sink).subject_count(),
        entry_seqs(final(sink).found()) == entry_seqs(old(sink).found()) + xsites(
            exchange_ixs(context.trace(), context.pairs(), None, context.trace().len() as nat),
            |x: (int, int)| hint_site(context.trace(), x)),
        entry_views(final(sink).found()) == entry_views(old(sink).found())
            + xentries(exchange_ixs(context.trace(), context.pairs(), None, context.trace().len() as nat), |x: (int, int)| hint_entry(context.trace(), x)),
{
    let exchanges = context.exchanges();
    let ghost events = context.trace();
    let ghost ixs = exchange_ixs(context.trace(), context.pairs(), None, context.trace().len() as nat);
    let ghost f = |x: (int, int)| hint_site(events, x);
    let ghost h = |x: (int, int)| hint_entry(events, x);
    let mut k: usize = 0;
    proof { reveal_strlit("complete"); }
    while k < exchanges.len()
        invariant
            k <= exchanges@.len(),
            exchanges_are(exchanges@, events, ixs),
            f == (|x: (int, int)| hint_site(events, x)),
            sink.check_id() == old(sink).check_id(),
            sink.subject_count() == old(sink).subject_count(),
            entry_seqs(sink.found()) == entry_seqs(old(sink).found()) + xsites(ixs.take(k as int), f),
            h == (|x: (int, int)| hint_entry(events, x)),
            entry_views(sink.found()) == entry_views(old(sink).found()) + xentries(ixs.take(k as int), h),
        decreases exchanges@.len() - k,
    {
        proof { lemma_xsites_take(ixs, f, k as int); lemma_xentries_take(ixs, h, k as int); }
        let x = &exchanges[k];
        assert(*exchanges@[k as int].request == events[ixs[k as int].0]);
        if is_cacheable(x.method) {
            if let Some(result) = x.result {
                let complete = match result.get("resultType") {
                    Some(t) => match t.as_str() {
                        Some(text) => text_eq(text, "complete"),
                        None => false,
                    },
                    None => false,
                };
                let from_retry = match x.params {
                    Some(p) => p.get("inputResponses").is_some() || p.get("requestState").is_some(),
                    None => false,
                };
                if complete && !from_retry && result.get("ttlMs").is_none() {
                    let mut d = owned("the `complete` result of `");
                    push_text(&mut d, x.method);
                    push_text(&mut d, "` carries no `ttlMs` caching hint");
                    sink.push(Some(x.response.seq), d);
                }
            }
        }
        k = k + 1;
    }
    proof { lemma_xsites_all(ixs, f); lemma_xentries_all(ixs, h); }
}

/// A server result whose `ttlMs` is negative or not an integer.
pub open spec fn ttl_site(e: TraceEvent) -> Seq<Option<u64>> {
    if e.direction == Direction::ServerToClient && e.payload() is Some
        && (e.payload().unwrap().at("result"@) matches Some(r) && r.at("ttlMs"@) is Some)
        && !(e.payload().unwrap().at("result"@).unwrap().at("ttlMs"@).unwrap().int_value() matches Some(v) && v >= 0) {
        seq![Some(e.seq)]
    } else {
        Seq::empty()
    }
}

/// The finding, as (seq, sentence), of a server result whose `ttlMs` is
/// negative or not an integer.
pub open spec fn ttl_entry(e: TraceEvent) -> Seq<(Option<u64>, Seq<char>)> {
    if ttl_site(e).len() > 0 {
        let t = e.payload().unwrap().at("result"@).unwrap().at("ttlMs"@).unwrap();
        match t.int_value() {
            Some(v) => seq![(Some(e.seq), "`ttlMs` is "@ + crate::text::signed_decimal(v)
                + "; servers must provide a value that is >= 0"@)],
            None => seq![(Some(e.seq), "`ttlMs` is "@ + crate::json::json_text(t)
                + ", which is not an integer number of milliseconds"@)],
        }
    } else {
        Seq::empty()
    }
}

/// `CACHE-*`: `ttlMs` is an integer number of milliseconds, `>= 0`.
pub fn ttl_non_negative(context: &TraceContext<'_>, sink: &mut FindingSink)
    ensures
        final(sink).check_id() == old(sink).check_id(),
        final(sink).subject_count() == old(sink).subject_count(),
        entry_seqs(final(sink).found()) == entry_seqs(old(sink).found())
            + sites(context.trace(), |e: TraceEvent| ttl_site(e)),
        entry_views(final(sink).found()) == entry_views(old(sink).found())
            + entries(context.trace(), |e: TraceEvent| ttl_entry(e)),
{
    let ghost f = |e: TraceEvent| ttl_site(e);
    let ghost h = |e: TraceEvent| ttl_entry(e);
    let n = context.len();
    let mut i: usize = 0;
    while i < n
        invariant
            n == context.trace().len(),
            i <= n,
            f == (|e: TraceEvent| ttl_site(e)),
            h == (|e: TraceEvent| ttl_entry(e)),
            sink.check_id() == old(sink).check_id(),
            sink.subject_count() == old(sink).subject_count(),
            entry_seqs(sink.found()) == entry_seqs(old(sink).found()) + sites(context.trace().take(i as int), f),
            entry_views(sink.found()) == entry_views(old(sink).found()) + entries(context.trace().take(i as int), h),
        decreases n - i,
    {
        let event = context.event(i);
        proof { lemma_sites_take(context.trace(), f, i as int); lemma_entries_take(context.trace(), h, i as int); }
        if event.direction == Direction::ServerToClient {
            if let Some(payload) = event.message_payload() {
                if let Some(result) = payload.get("result") {
                    if let Some(ttl) = result.get("ttlMs") {
                        match ttl.as_i64() {
                            Some(value) => if value < 0 {
                                let mut d = owned("`ttlMs` is ");
                                let t = i64_text(value);
                                push_text(&mut d, t.as_str());
                                push_text(&mut d, "; servers must provide a value that is >= 0");
                                sink.push(Some(event.seq), d);
                            },
                            None => {
                                let mut d = owned("`ttlMs` is ");
                                let t = ttl.to_text();
                                push_text(&mut d, t.as_str());
                                push_text(&mut d, ", which is not an integer number of milliseconds");
                                sink.push(Some(event.seq), d);
                            },
                        }
                    }
                }
            }
        }
        i = i + 1;
    }
    proof { lemma_sites_all(context.trace(), f); lemma_entries_all(context.trace(), h); }
}

/// The state of the page-scope walk: the chain each awaited (method, cursor)
/// continues, and each chain's first scope with the seq that declared it.
pub struct ScopeWalk {
    pub awaiting: Map<(Seq<char>, Seq<char>), usize>,
    pub scopes: Seq<(Option<Seq<char>>, u64)>,
    pub found: Seq<Option<u64>>,
}

/// The compact text of an optional member.
pub open spec fn member_text(j: Option<Json>) -> Option<Seq<char>> {
    match j {
        Some(v) => Some(json_text(v)),
        None => None,
    }
}

/// One exchange of the walk: a page that presents a cursor the walk awaits
/// continues that cursor's chain; any other result starts a chain of its own.
/// A page whose `cacheScope` differs from its chain's first is a finding; a
/// `nextCursor` is awaited next, for the same method.
pub open spec fn scope_step(events: Seq<TraceEvent>, w: ScopeWalk, x: (int, int)) -> ScopeWalk {
    let (r, j) = x;
    match x_result(events, j) {
        None => w,
        Some(res) => {
            let method = x_method(events, r);
            let scope = member_text(res.at("cacheScope"@));
            let cursor = match x_params(events, r) {
                Some(p) => member_text(p.at("cursor"@)),
                None => None,
            };
            let continues = cursor is Some && w.awaiting.contains_key((method, cursor.unwrap()));
            let awaiting1 = if cursor is Some { w.awaiting.remove((method, cursor.unwrap())) } else { w.awaiting };
            let scopes1 = if continues { w.scopes } else { w.scopes.push((scope, events[j].seq)) };
            let chain = if continues { w.awaiting[(method, cursor.unwrap())] as int } else { w.scopes.len() as int };
            let found1 = if scopes1[chain].0 != scope { w.found.push(Some(events[j].seq)) } else { w.found };
            let awaiting2 = match res.at("nextCursor"@) {
                Some(n) => awaiting1.insert((method, json_text(n)), chain as usize),
                None => awaiting1,
            };
            ScopeWalk { awaiting: awaiting2, scopes: scopes1, found: found1 }
        },
    }
}

/// The walk over the exchanges at `ixs`.
pub open spec fn scope_walk(events: Seq<TraceEvent>, ixs: Seq<(int, int)>) -> ScopeWalk
    decreases ixs.len(),
{
    if ixs.len() == 0 {
        ScopeWalk { awaiting: Map::empty(), scopes: Seq::empty(), found: Seq::empty() }
    } else {
        scope_step(events, scope_walk(events, ixs.drop_last()), ixs.last())
    }
}

/// The views of the exec scope list.
pub open spec fn scope_views(v: Seq<(Option<String>, u64)>) -> Seq<(Option<Seq<char>>, u64)> {
    v.map_values(|e: (Option<String>, u64)| (match e.0 { Some(s) => Some(s@), None => None }, e.1))
}

/// Whether every chain index the walk awaits names a chain.
pub open spec fn chains_valid(w: ScopeWalk) -> bool {
    forall|k: (Seq<char>, Seq<char>)| w.awaiting.contains_key(k) ==> (#[trigger] w.awaiting[k]) < w.scopes.len()
}

fn optional_text(j: Option<&Json>) -> (r: Option<String>)
    ensures
        match r {
            Some(t) => member_text(crate::message::opt(j)) == Some(t@),
            None => member_text(crate::message::opt(j)) is None,
        },
{
    match j {
        Some(v) => Some(v.to_text()),
        None => None,
    }
}

/// How a page's declared `cacheScope` is named in findings: the scope, or
/// `none` when the page declared none.
pub open spec fn scope_name(scope: Option<String>) -> Seq<char> {
    match scope {
        Some(t) => t@,
        None => "none"@,
    }
}

fn push_scope_name(d: &mut String, scope: &Option<String>)
    ensures
        final(d)@ == old(d)@ + scope_name(*scope),
{
    match scope {
        Some(t) => push_text(d, t.as_str()),
        None => push_text(d, "none"),
    }
}

/// `CACHE-*`: the pages of one paginated request declare one `cacheScope`.
#[verifier::loop_isolation(false)]
pub fn page_scope_consistent(context: &TraceContext<'_>, sink: &mut FindingSink)
    ensures
        final(sink).check_id() == old(sink).check_id(),
        final(sink).subject_count() == old(sink).subject_count(),
        entry_seqs(final(sink).found()) == entry_seqs(old(sink).found()) + scope_walk(context.trace(),
            exchange_ixs(context.trace(), context.pairs(), None, context.trace().len() as nat)).found,
{
    let exchanges = context.exchanges();
    let ghost events = context.trace();
    let ghost ixs = exchange_ixs(context.trace(), context.pairs(), None, context.trace().len() as nat);
    let mut awaiting = KeyMap::new();
    let mut scopes: Vec<(Option<String>, u64)> = Vec::new();
    let mut k: usize = 0;
    while k < exchanges.len()
        invariant
            k <= exchanges@.len(),
            exchanges_are(exchanges@, events, ixs),
            sink.check_id() == old(sink).check_id(),
            sink.subject_count() == old(sink).subject_count(),
            awaiting.view_map() == scope_walk(events, ixs.take(k as int)).awaiting,
            scope_views(scopes@) == scope_walk(events, ixs.take(k as int)).scopes,
            chains_valid(scope_walk(events, ixs.take(k as int))),
            entry_seqs(sink.found()) == entry_seqs(old(sink).found()) + scope_walk(events, ixs.take(k as int)).found,
        decreases exchanges@.len() - k,
    {
        proof {
            assert(ixs.take(k + 1).drop_last() =~= ixs.take(k as int));
            assert(ixs.take(k + 1).last() == ixs[k as int]);
        }
        let ghost w = scope_walk(events, ixs.take(k as int));
        let x = &exchanges[k];
        assert(*exchanges@[k as int].request == events[ixs[k as int].0]);
        if let Some(result) = x.result {
            let scope = optional_text(result.get("cacheScope"));
            let cursor = match x.params {
                Some(p) => optional_text(p.get("cursor")),
                None => None,
            };
            let chain: usize = match &cursor {
                Some(c) => match awaiting.remove(x.method, c.as_str()) {
                    Some(found) => found,
                    None => {
                        scopes.push((scope.clone(), x.response.seq));
                        scopes.len() - 1
                    },
                },
                None => {
                    scopes.push((scope.clone(), x.response.seq));
                    scopes.len() - 1
                },
            };
            proof {
                assert(scope_views(scopes@) =~= scope_step(events, w, ixs[k as int]).scopes);
            }
            let same = match (&scopes[chain].0, &scope) {
                (Some(a), Some(b)) => text_eq(a.as_str(), b.as_str()),
                (None, None) => true,
                _ => false,
            };
            if !same {
                let mut d = owned("this `");
                push_text(&mut d, x.method);
                push_text(&mut d, "` page declares cacheScope ");
                push_scope_name(&mut d, &scope);
                push_text(&mut d, " while the page at seq ");
                let first_seq = u64_text(scopes[chain].1);
                push_text(&mut d, first_seq.as_str());
                push_text(&mut d, " in the same request declared ");
                push_scope_name(&mut d, &scopes[chain].0);
                sink.push(Some(x.response.seq), d);
            }
            if let Some(next) = result.get("nextCursor") {
                awaiting.insert(owned(x.method), next.to_text(), chain);
            }
        }
        k = k + 1;
    }
    assert(ixs.take(ixs.len() as int) =~= ixs);
}

} // verus!
