//! Checks for the `2025-11-25` resources requirements (`RES-*`).
//!
//! Evidence comes from `resources/list`, `resources/templates/list` and
//! `resources/read` exchanges. URI-template strings (`uriTemplate`) are RFC
//! 6570 templates, not URIs, and are outside the RFC 3986 scheme check.

use vstd::prelude::*;
use crate::checks::after_counting;
use crate::checks::sites::{tally, xtally, lemma_tally_take, lemma_xtally_take, lemma_tally_all, lemma_xtally_all};
use crate::checks::{FindingSink, entry_seqs, entry_views};
use crate::checks::sites::{xentries, lemma_xentries_take, lemma_xentries_all, xsites, lemma_xsites_take, lemma_xsites_all};
use crate::checks::support::{Declaration, server_capability, server_declaration, path_view, is_base64,
    base64_valid, has_rfc3986_scheme, has_scheme};
use crate::checks::tools::{x_result, items_of, items_in};
use crate::checks::prompts::text_member;
use crate::context::{TraceContext, exchanges_are, exchange_ixs};
use crate::json::Json;
use crate::text::{owned, push_text, text_eq, debug_text};
use crate::trace::TraceEvent;

verus! {

/// Whether `m` is a resources-area request method whose successful service
/// evidences support.
pub open spec fn resource_method(m: Seq<char>) -> bool {
    m == "resources/list"@ || m == "resources/templates/list"@ || m == "resources/read"@
        || m == "resources/subscribe"@ || m == "resources/unsubscribe"@
}

/// An answered resources-area exchange.
pub open spec fn served_resources_site(events: Seq<TraceEvent>, x: (int, int)) -> Seq<Option<u64>> {
    let m = events[x.0].payload().unwrap().at("method"@).unwrap().text().unwrap();
    if resource_method(m) && x_result(events, x) is Some {
        seq![Some(events[x.1].seq)]
    } else {
        Seq::empty()
    }
}

/// The finding, as (seq, sentence), of an exchange the server answered
/// successfully for a `resources/` method.
pub open spec fn served_resources_entry(events: Seq<TraceEvent>, x: (int, int)) -> Seq<(Option<u64>, Seq<char>)> {
    if served_resources_site(events, x).len() > 0 {
        seq![(Some(events[x.1].seq), "server answered "@
            + crate::text::debug_quoted(events[x.0].payload().unwrap().at("method"@).unwrap().text().unwrap())
            + " without declaring the resources capability"@)]
    } else {
        Seq::empty()
    }
}

/// `RES-001`: "Servers that support resources MUST declare the `resources`
/// capability": successfully serving resources traffic is the observable form
/// of support.
pub fn capability_declared(context: &TraceContext<'_>, sink: &mut FindingSink)
    ensures
        crate::context::life_after(context.trace()).init.result is None
            ==> final(sink).subject_count() == Some(crate::checks::count_or_zero(old(sink).subject_count())),
        final(sink).check_id() == old(sink).check_id(),
        final(sink).subject_count() == after_counting(old(sink).subject_count(),
            if server_declaration(context.trace(), seq!["resources"@]) == Declaration::Unknowable { 0 } else {
                xtally(exchange_ixs(context.trace(), context.pairs(), None, context.trace().len() as nat), |x: (int, int)| served_resources_site(context.trace(), x).len()) as int
            }),
        entry_seqs(final(sink).found()) == entry_seqs(old(sink).found())
            + if server_declaration(context.trace(), seq!["resources"@]) == Declaration::Withheld {
                xsites(exchange_ixs(context.trace(), context.pairs(), None, context.trace().len() as nat),
                    |x: (int, int)| served_resources_site(context.trace(), x))
            } else {
                Seq::empty()
            },
        entry_views(final(sink).found()) == entry_views(old(sink).found())
            + if server_declaration(context.trace(), seq!["resources"@]) == Declaration::Withheld {
                xentries(exchange_ixs(context.trace(), context.pairs(), None, context.trace().len() as nat),
                    |x: (int, int)| served_resources_entry(context.trace(), x))
            } else {
                Seq::empty()
            },
{
    let path: Vec<&str> = vec!["resources"];
    assert(path_view(path@) =~= seq!["resources"@]);
    let declaration = server_capability(context, path.as_slice());
    if declaration == Declaration::Unknowable {
        sink.examined_many(0);
        assert(entry_seqs(sink.found()) =~= entry_seqs(old(sink).found()) + Seq::<Option<u64>>::empty());
        assert(entry_views(sink.found()) =~= entry_views(old(sink).found()) + Seq::<(Option<u64>, Seq<char>)>::empty());
        return;
    }
    let withheld = declaration == Declaration::Withheld;
    sink.examined_many(0);
    assert(entry_seqs(sink.found()) =~= entry_seqs(old(sink).found()) + Seq::<Option<u64>>::empty());
        assert(entry_views(sink.found()) =~= entry_views(old(sink).found()) + Seq::<(Option<u64>, Seq<char>)>::empty());
    let exchanges = context.exchanges();
    let ghost events = context.trace();
    let ghost ixs = exchange_ixs(context.trace(), context.pairs(), None, context.trace().len() as nat);
    let ghost f = |x: (int, int)| served_resources_site(events, x);
    let ghost h = |x: (int, int)| served_resources_entry(events, x);
    let ghost g = |x: (int, int)| served_resources_site(events, x).len();
    let mut k: usize = 0;
    while k < exchanges.len()
        invariant
            k <= exchanges@.len(),
            exchanges_are(exchanges@, events, ixs),
            f == (|x: (int, int)| served_resources_site(events, x)),
            sink.check_id() == old(sink).check_id(),
            g == (|x: (int, int)| served_resources_site(events, x).len()),
            sink.subject_count() == after_counting(old(sink).subject_count(), xtally(ixs.take(k as int), g) as int),
            withheld == (server_declaration(events, seq!["resources"@]) == Declaration::Withheld),
            entry_seqs(sink.found()) == entry_seqs(old(sink).found())
                + if withheld { xsites(ixs.take(k as int), f) } else { Seq::empty() },
            h == (|x: (int, int)| served_resources_entry(events, x)),
            entry_views(sink.found()) == entry_views(old(sink).found())
                + if withheld { xentries(ixs.take(k as int), h) } else { Seq::empty() },
        decreases exchanges@.len() - k,
    {
        proof { lemma_xsites_take(ixs, f, k as int); lemma_xentries_take(ixs, h, k as int); lemma_xtally_take(ixs, g, k as int); }
        let exchange = &exchanges[k];
        assert(*exchange.request == events[ixs[k as int].0]);
        let m = exchange.method;
        let is_resources = text_eq(m, "resources/list") || text_eq(m, "resources/templates/list")
            || text_eq(m, "resources/read") || text_eq(m, "resources/subscribe") || text_eq(m, "resources/unsubscribe");
        if is_resources && exchange.result.is_some() {
            sink.examined();
        }
        if withheld && is_resources && exchange.result.is_some() {
            let mut d = owned("server answered ");
            let q = debug_text(m);
            push_text(&mut d, q.as_str());
            push_text(&mut d, " without declaring the resources capability");
            sink.push(Some(exchange.response.seq), d);
        }
        k = k + 1;
    }
    proof { lemma_xsites_all(ixs, f); lemma_xentries_all(ixs, h); lemma_xtally_all(ixs, g); }
}

/// One finding at `seq` per item whose string `uri` lacks an RFC 3986 scheme.
pub open spec fn uri_sites(items: Seq<Json>, seq: u64) -> Seq<Option<u64>>
    decreases items.len(),
{
    if items.len() == 0 {
        Seq::empty()
    } else {
        uri_sites(items.drop_last(), seq) + (if text_member(items.last(), "uri"@) matches Some(u) && !has_scheme(u) {
            seq![Some(seq)]
        } else {
            Seq::empty()
        })
    }
}

/// The exchanges of `method` in a trace.
pub open spec fn method_ixs(events: Seq<TraceEvent>, pairs: Seq<Option<usize>>, method: Seq<char>) -> Seq<(int, int)> {
    exchange_ixs(events, pairs, Some(method), events.len() as nat)
}

/// Reports the URIs of `items` that lack a scheme.
fn judge_uris(items: Option<&Vec<Json>>, seq: u64, sink: &mut FindingSink)
    ensures
        final(sink).check_id() == old(sink).check_id(),
        final(sink).subject_count() == old(sink).subject_count(),
        entry_seqs(final(sink).found()) == entry_seqs(old(sink).found()) + uri_sites(match items {
            Some(v) => v@,
            None => Seq::empty(),
        }, seq),
{
    match items {
        Some(items) => {
            let mut j: usize = 0;
            while j < items.len()
                invariant
                    j <= items@.len(),
                    sink.check_id() == old(sink).check_id(),
                    sink.subject_count() == old(sink).subject_count(),
                    entry_seqs(sink.found()) == entry_seqs(old(sink).found()) + uri_sites(items@.take(j as int), seq),
                decreases items@.len() - j,
            {
                proof { assert(items@.take(j + 1).drop_last() =~= items@.take(j as int)); }
                if let Some(u) = items[j].get("uri") {
                    if let Some(uri) = u.as_str() {
                        if !has_rfc3986_scheme(uri) {
                            let mut d = owned("resource URI ");
                            let q = debug_text(uri);
                            push_text(&mut d, q.as_str());
                            push_text(&mut d, " does not begin with an RFC 3986 scheme (ALPHA *( ALPHA / DIGIT / \"+\" / \"-\" / \".\" ) followed by \":\")");
                            sink.push(Some(seq), d);
                        }
                    }
                }
                j = j + 1;
            }
            proof { assert(items@.take(items@.len() as int) =~= items@); }
        },
        None => {
            assert(entry_seqs(sink.found()) =~= entry_seqs(old(sink).found()) + Seq::<Option<u64>>::empty());
        },
    }
}

/// `RES-004`: URI schemes must follow RFC 3986 §3.1 syntax, judged on every
/// URI the server stated: `resources/list` entries, then `resources/read`
/// contents.
pub fn uri_scheme_rfc3986(context: &TraceContext<'_>, sink: &mut FindingSink)
    ensures
        final(sink).check_id() == old(sink).check_id(),
        final(sink).subject_count() == old(sink).subject_count(),
        entry_seqs(final(sink).found()) == entry_seqs(old(sink).found())
            + xsites(method_ixs(context.trace(), context.pairs(), "resources/list"@),
                |x: (int, int)| uri_sites(items_of(x_result(context.trace(), x), "resources"@), context.trace()[x.1].seq))
            + xsites(method_ixs(context.trace(), context.pairs(), "resources/read"@),
                |x: (int, int)| uri_sites(items_of(x_result(context.trace(), x), "contents"@), context.trace()[x.1].seq)),
{
    let ghost events = context.trace();
    let lists = context.exchanges_for("resources/list");
    let ghost lixs = method_ixs(context.trace(), context.pairs(), "resources/list"@);
    let ghost g = |x: (int, int)| uri_sites(items_of(x_result(events, x), "resources"@), events[x.1].seq);
    let mut k: usize = 0;
    while k < lists.len()
        invariant
            k <= lists@.len(),
            exchanges_are(lists@, events, lixs),
            g == (|x: (int, int)| uri_sites(items_of(x_result(events, x), "resources"@), events[x.1].seq)),
            sink.check_id() == old(sink).check_id(),
            sink.subject_count() == old(sink).subject_count(),
            entry_seqs(sink.found()) == entry_seqs(old(sink).found()) + xsites(lixs.take(k as int), g),
        decreases lists@.len() - k,
    {
        proof { lemma_xsites_take(lixs, g, k as int); }
        let exchange = &lists[k];
        assert(*exchange.request == events[lixs[k as int].0]);
        judge_uris(items_in(exchange.result, "resources"), exchange.response.seq, sink);
        k = k + 1;
    }
    proof { lemma_xsites_all(lixs, g); }
    let ghost middle = entry_seqs(sink.found());
    let reads = context.exchanges_for("resources/read");
    let ghost rixs = method_ixs(context.trace(), context.pairs(), "resources/read"@);
    let ghost h = |x: (int, int)| uri_sites(items_of(x_result(events, x), "contents"@), events[x.1].seq);
    let mut k: usize = 0;
    while k < reads.len()
        invariant
            k <= reads@.len(),
            exchanges_are(reads@, events, rixs),
            h == (|x: (int, int)| uri_sites(items_of(x_result(events, x), "contents"@), events[x.1].seq)),
            sink.check_id() == old(sink).check_id(),
            sink.subject_count() == old(sink).subject_count(),
            entry_seqs(sink.found()) == middle + xsites(rixs.take(k as int), h),
        decreases reads@.len() - k,
    {
        proof { lemma_xsites_take(rixs, h, k as int); }
        let exchange = &reads[k];
        assert(*exchange.request == events[rixs[k as int].0]);
        judge_uris(items_in(exchange.result, "contents"), exchange.response.seq, sink);
        k = k + 1;
    }
    proof { lemma_xsites_all(rixs, h); }
}

/// One finding at `seq` per content whose `blob` is present and not a base64
/// string.
pub open spec fn blob_sites(items: Seq<Json>, seq: u64) -> Seq<Option<u64>>
    decreases items.len(),
{
    if items.len() == 0 {
        Seq::empty()
    } else {
        blob_sites(items.drop_last(), seq) + (if items.last().at("blob"@) is Some
            && !(text_member(items.last(), "blob"@) matches Some(b) && base64_valid(b)) {
            seq![Some(seq)]
        } else {
            Seq::empty()
        })
    }
}

/// `RES-006`: "Binary data MUST be properly encoded": every `blob` member in
/// `resources/read` contents must be standard base64.
pub fn blob_base64(context: &TraceContext<'_>, sink: &mut FindingSink)
    ensures
        final(sink).check_id() == old(sink).check_id(),
        final(sink).subject_count() == old(sink).subject_count(),
        entry_seqs(final(sink).found()) == entry_seqs(old(sink).found())
            + xsites(method_ixs(context.trace(), context.pairs(), "resources/read"@),
                |x: (int, int)| blob_sites(items_of(x_result(context.trace(), x), "contents"@), context.trace()[x.1].seq)),
{
    let ghost events = context.trace();
    let reads = context.exchanges_for("resources/read");
    let ghost ixs = method_ixs(context.trace(), context.pairs(), "resources/read"@);
    let ghost f = |x: (int, int)| blob_sites(items_of(x_result(events, x), "contents"@), events[x.1].seq);
    let mut k: usize = 0;
    while k < reads.len()
        invariant
            k <= reads@.len(),
            exchanges_are(reads@, events, ixs),
            f == (|x: (int, int)| blob_sites(items_of(x_result(events, x), "contents"@), events[x.1].seq)),
            sink.check_id() == old(sink).check_id(),
            sink.subject_count() == old(sink).subject_count(),
            entry_seqs(sink.found()) == entry_seqs(old(sink).found()) + xsites(ixs.take(k as int), f),
        decreases reads@.len() - k,
    {
        proof { lemma_xsites_take(ixs, f, k as int); }
        let exchange = &reads[k];
        assert(*exchange.request == events[ixs[k as int].0]);
        let seq = exchange.response.seq;
        let ghost start = entry_seqs(sink.found());
        match items_in(exchange.result, "contents") {
            Some(contents) => {
                let mut j: usize = 0;
                while j < contents.len()
                    invariant
                        j <= contents@.len(),
                        sink.check_id() == old(sink).check_id(),
                        sink.subject_count() == old(sink).subject_count(),
                        entry_seqs(sink.found()) == start + blob_sites(contents@.take(j as int), seq),
                    decreases contents@.len() - j,
                {
                    proof { assert(contents@.take(j + 1).drop_last() =~= contents@.take(j as int)); }
                    let content = &contents[j];
                    if let Some(blob) = content.get("blob") {
                        let valid = match blob.as_str() {
                            Some(b) => is_base64(b),
                            None => false,
                        };
                        if !valid {
                            let uri = match content.get("uri") {
                                Some(u) => match u.as_str() {
                                    Some(s) => s,
                                    None => "(no uri)",
                                },
                                None => "(no uri)",
                            };
                            let mut d = owned("resource ");
                            let q = debug_text(uri);
                            push_text(&mut d, q.as_str());
                            push_text(&mut d, " carries a blob that is not valid base64");
                            sink.push(Some(seq), d);
                        }
                    }
                    j = j + 1;
                }
                proof { assert(contents@.take(contents@.len() as int) =~= contents@); }
            },
            None => {
                assert(entry_seqs(sink.found()) =~= start + blob_sites(Seq::<Json>::empty(), seq));
            },
        }
        k = k + 1;
    }
    proof { lemma_xsites_all(ixs, f); }
}

} // verus!
