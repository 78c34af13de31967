//! Checks for the `2025-11-25` prompts requirements (`PROM-*`).
//!
//! Content-shape evidence comes from `prompts/get` results: image and audio
//! content items must carry base64 data with a MIME type, and embedded
//! resources must carry a URI, a MIME type, and exactly one of text or blob.

use vstd::prelude::*;
use crate::checks::after_counting;
use crate::checks::sites::{xentries, lemma_xentries_take, lemma_xentries_all, tally, xtally, lemma_tally_take, lemma_xtally_take, lemma_tally_all, lemma_xtally_all};
use crate::checks::{FindingSink, entry_seqs, entry_views};
use crate::checks::sites::{xsites, lemma_xsites_take, lemma_xsites_all};
use crate::checks::support::{Declaration, server_capability, server_declaration, path_view, is_base64,
    base64_valid, has_rfc3986_scheme, has_scheme};
use crate::checks::stdio::{bind, bound, keys_of, names, key_index, find_key};
use crate::checks::tools::{x_result, x_params, items_of, items_in, called_name};
use crate::context::{TraceContext, exchanges_are, exchange_ixs};
use crate::json::Json;
use crate::text::{owned, push_text, text_eq, debug_text, chars_of, texts};
use crate::trace::TraceEvent;

verus! {

/// An answered `prompts/list` or `prompts/get` exchange.
pub open spec fn served_prompts_site(events: Seq<TraceEvent>, x: (int, int)) -> Seq<Option<u64>> {
    let m = events[x.0].payload().unwrap().at("method"@).unwrap().text().unwrap();
    if (m == "prompts/list"@ || m == "prompts/get"@) && x_result(events, x) is Some {
        seq![Some(events[x.1].seq)]
    } else {
        Seq::empty()
    }
}

/// The finding, as (seq, sentence), of an exchange the server answered
/// successfully for a prompts method.
pub open spec fn served_prompts_entry(events: Seq<TraceEvent>, x: (int, int)) -> Seq<(Option<u64>, Seq<char>)> {
    if served_prompts_site(events, x).len() > 0 {
        seq![(Some(events[x.1].seq), "server answered "@
            + crate::text::debug_quoted(events[x.0].payload().unwrap().at("method"@).unwrap().text().unwrap())
            + " without declaring the prompts capability"@)]
    } else {
        Seq::empty()
    }
}

/// `PROM-001`: "Servers that support prompts MUST declare the `prompts`
/// capability": successfully serving prompts traffic is the observable form
/// of support.
pub fn capability_declared(context: &TraceContext<'_>, sink: &mut FindingSink)
    ensures
        crate::context::life_after(context.trace()).init.result is None
            ==> final(sink).subject_count() == Some(crate::checks::count_or_zero(old(sink).subject_count())),
        final(sink).check_id() == old(sink).check_id(),
        final(sink).subject_count() == after_counting(old(sink).subject_count(),
            if server_declaration(context.trace(), seq!["prompts"@]) == Declaration::Unknowable { 0 } else {
                xtally(exchange_ixs(context.trace(), context.pairs(), None, context.trace().len() as nat),
                    |x: (int, int)| served_prompts_site(context.trace(), x).len()) as int
            }),
        entry_seqs(final(sink).found()) == entry_seqs(old(sink).found())
            + if server_declaration(context.trace(), seq!["prompts"@]) == Declaration::Withheld {
                xsites(exchange_ixs(context.trace(), context.pairs(), None, context.trace().len() as nat),
                    |x: (int, int)| served_prompts_site(context.trace(), x))
            } else {
                Seq::empty()
            },
        entry_views(final(sink).found()) == entry_views(old(sink).found())
            + if server_declaration(context.trace(), seq!["prompts"@]) == Declaration::Withheld {
                xentries(exchange_ixs(context.trace(), context.pairs(), None, context.trace().len() as nat),
                    |x: (int, int)| served_prompts_entry(context.trace(), x))
            } else {
                Seq::empty()
            },
{
    sink.examined_many(0);
    let path: Vec<&str> = vec!["prompts"];
    assert(path_view(path@) =~= seq!["prompts"@]);
    let declaration = server_capability(context, path.as_slice());
    if declaration == Declaration::Unknowable {
        assert(entry_seqs(sink.found()) =~= entry_seqs(old(sink).found()) + Seq::<Option<u64>>::empty());
        assert(entry_views(sink.found()) =~= entry_views(old(sink).found()) + Seq::<(Option<u64>, Seq<char>)>::empty());
        return;
    }
    let declared = declaration != Declaration::Withheld;
    let exchanges = context.exchanges();
    let ghost events = context.trace();
    let ghost ixs = exchange_ixs(context.trace(), context.pairs(), None, context.trace().len() as nat);
    let ghost f = |x: (int, int)| served_prompts_site(events, x);
    let ghost h = |x: (int, int)| served_prompts_entry(events, x);
    let ghost g = |x: (int, int)| served_prompts_site(events, x).len();
    let mut k: usize = 0;
    while k < exchanges.len()
        invariant
            k <= exchanges@.len(),
            exchanges_are(exchanges@, events, ixs),
            f == (|x: (int, int)| served_prompts_site(events, x)),
            sink.check_id() == old(sink).check_id(),
            g == (|x: (int, int)| served_prompts_site(events, x).len()),
            sink.subject_count() == after_counting(old(sink).subject_count(), xtally(ixs.take(k as int), g) as int),
            entry_seqs(sink.found()) == entry_seqs(old(sink).found())
                + if !declared { xsites(ixs.take(k as int), f) } else { Seq::empty() },
            h == (|x: (int, int)| served_prompts_entry(events, x)),
            entry_views(sink.found()) == entry_views(old(sink).found())
                + if !declared { xentries(ixs.take(k as int), h) } else { Seq::empty() },
        decreases exchanges@.len() - k,
    {
        proof { lemma_xsites_take(ixs, f, k as int); lemma_xentries_take(ixs, h, k as int); lemma_xtally_take(ixs, g, k as int); }
        let exchange = &exchanges[k];
        assert(*exchange.request == events[ixs[k as int].0]);
        if (text_eq(exchange.method, "prompts/list") || text_eq(exchange.method, "prompts/get"))
            && exchange.result.is_some() {
            sink.examined();
            if !declared {
                let mut d = owned("server answered ");
                let q = debug_text(exchange.method);
                push_text(&mut d, q.as_str());
                push_text(&mut d, " without declaring the prompts capability");
                sink.push(Some(exchange.response.seq), d);
            }
        }
        k = k + 1;
    }
    proof { lemma_xsites_all(ixs, f); lemma_xentries_all(ixs, h); lemma_xtally_all(ixs, g); }
}

/// The `content` members of a prompt result's messages, in order.
pub open spec fn message_contents(messages: Seq<Json>) -> Seq<Json>
    decreases messages.len(),
{
    if messages.len() == 0 {
        Seq::empty()
    } else {
        match messages.last().at("content"@) {
            Some(c) => message_contents(messages.drop_last()).push(c),
            None => message_contents(messages.drop_last()),
        }
    }
}

/// The content items of the `prompts/get` result at exchange `x`.
pub open spec fn prompt_contents(events: Seq<TraceEvent>, x: (int, int)) -> Seq<Json> {
    message_contents(items_of(x_result(events, x), "messages"@))
}

/// The `prompts/get` exchanges of a trace.
pub open spec fn get_ixs(events: Seq<TraceEvent>, pairs: Seq<Option<usize>>) -> Seq<(int, int)> {
    exchange_ixs(events, pairs, Some("prompts/get"@), events.len() as nat)
}

/// The content items of a `prompts/get` result.
fn contents_of<'a>(result: Option<&'a Json>) -> (r: Vec<&'a Json>)
    ensures
        r@.map_values(|j: &Json| *j) == message_contents(items_of(crate::message::opt(result), "messages"@)),
{
    let mut out: Vec<&'a Json> = Vec::new();
    match items_in(result, "messages") {
        Some(messages) => {
            let mut i: usize = 0;
            while i < messages.len()
                invariant
                    i <= messages@.len(),
                    out@.map_values(|j: &Json| *j) == message_contents(messages@.take(i as int)),
                decreases messages@.len() - i,
            {
                proof { assert(messages@.take(i + 1).drop_last() =~= messages@.take(i as int)); }
                if let Some(c) = messages[i].get("content") {
                    let ghost before = out@;
                    out.push(c);
                    assert(out@.map_values(|j: &Json| *j) =~= before.map_values(|j: &Json| *j).push(*c));
                }
                i = i + 1;
            }
            proof { assert(messages@.take(messages@.len() as int) =~= messages@); }
        },
        None => {
            assert(out@.map_values(|j: &Json| *j) =~= Seq::<Json>::empty());
        },
    }
    out
}

/// Whether `item` has a string `type` equal to `t`.
pub open spec fn of_type(item: Json, t: Seq<char>) -> bool {
    item.at("type"@) matches Some(v) && v.text() == Some(t)
}

/// Whether a MIME type reads `type/subtype`: a non-empty part on each side of
/// its first `/`.
pub open spec fn mime_ok(m: Seq<char>) -> bool {
    exists|k: int| #![trigger m[k]] 0 < k < m.len() - 1 && m[k] == '/' && forall|j: int| 0 <= j < k ==> m[j] != '/'
}

/// Whether `m` reads `type/subtype`.
fn mime_present(m: &str) -> (r: bool)
    ensures
        r == mime_ok(m@),
{
    let cs = chars_of(m);
    let mut i: usize = 0;
    while i < cs.len()
        invariant
            cs@ == m@,
            i <= cs@.len(),
            forall|j: int| 0 <= j < i ==> cs@[j] != '/',
        decreases cs@.len() - i,
    {
        if cs[i] == '/' {
            proof {
                assert forall|k: int| #![trigger m@[k]] 0 < k < m@.len() - 1 && m@[k] == '/'
                    && (forall|j: int| 0 <= j < k ==> m@[j] != '/') implies k == i by {
                    if k > i {
                        assert(m@[i as int] == '/');
                    }
                }
            }
            return i > 0 && i + 1 < cs.len();
        }
        i = i + 1;
    }
    false
}

/// The findings of one binary content item of type `kind`: data that is not
/// base64, and a missing or malformed MIME type.
pub open spec fn binary_item_sites(item: Json, kind: Seq<char>, seq: u64) -> Seq<Option<u64>> {
    if of_type(item, kind) {
        (if item.at("data"@) matches Some(d) && d.text() matches Some(t) && base64_valid(t) {
            Seq::empty()
        } else {
            seq![Some(seq)]
        }) + (if item.at("mimeType"@) matches Some(m) && m.text() matches Some(t) && mime_ok(t) {
            Seq::empty()
        } else {
            seq![Some(seq)]
        })
    } else {
        Seq::empty()
    }
}

/// Those findings over a list of items.
pub open spec fn binary_sites(items: Seq<Json>, kind: Seq<char>, seq: u64) -> Seq<Option<u64>>
    decreases items.len(),
{
    if items.len() == 0 {
        Seq::empty()
    } else {
        binary_sites(items.drop_last(), kind, seq) + binary_item_sites(items.last(), kind, seq)
    }
}

/// The findings, as (seq, sentence), of one binary content item of `kind`.
pub open spec fn binary_item_entries(item: Json, kind: Seq<char>, seq: u64) -> Seq<(Option<u64>, Seq<char>)> {
    if of_type(item, kind) {
        (if item.at("data"@) matches Some(d) && d.text() matches Some(t) && base64_valid(t) {
            Seq::empty()
        } else {
            seq![(Some(seq), kind + " content data is not valid base64"@)]
        }) + (if item.at("mimeType"@) matches Some(m) && m.text() matches Some(t) && mime_ok(t) {
            Seq::empty()
        } else {
            seq![(Some(seq), kind + " content lacks a valid mimeType (expected type/subtype)"@)]
        })
    } else {
        Seq::empty()
    }
}

/// Those findings over a list of items.
pub open spec fn binary_entries(items: Seq<Json>, kind: Seq<char>, seq: u64) -> Seq<(Option<u64>, Seq<char>)>
    decreases items.len(),
{
    if items.len() == 0 {
        Seq::empty()
    } else {
        binary_entries(items.drop_last(), kind, seq) + binary_item_entries(items.last(), kind, seq)
    }
}

/// How many of `items` have `type` `kind`.
pub open spec fn typed_count(items: Seq<Json>, kind: Seq<char>) -> nat
    decreases items.len(),
{
    if items.len() == 0 {
        0
    } else {
        typed_count(items.drop_last(), kind) + if of_type(items.last(), kind) { 1nat } else { 0nat }
    }
}

/// Judges the binary content items of `kind` in `prompts/get` results.
fn binary_content_encoding(context: &TraceContext<'_>, sink: &mut FindingSink, kind: &str)
    ensures
        final(sink).check_id() == old(sink).check_id(),
        final(sink).subject_count() == after_counting(old(sink).subject_count(),
            xtally(get_ixs(context.trace(), context.pairs()), |x: (int, int)| typed_count(prompt_contents(context.trace(), x), kind@)) as int),
        entry_seqs(final(sink).found()) == entry_seqs(old(sink).found())
            + xsites(get_ixs(context.trace(), context.pairs()),
                |x: (int, int)| binary_sites(prompt_contents(context.trace(), x), kind@, context.trace()[x.1].seq)),
        crate::checks::entry_views(final(sink).found()) == crate::checks::entry_views(old(sink).found())
            + xentries(get_ixs(context.trace(), context.pairs()),
                |x: (int, int)| binary_entries(prompt_contents(context.trace(), x), kind@, context.trace()[x.1].seq)),
{
    sink.examined_many(0);
    let exchanges = context.exchanges_for("prompts/get");
    let ghost events = context.trace();
    let ghost ixs = get_ixs(context.trace(), context.pairs());
    let ghost f = |x: (int, int)| binary_sites(prompt_contents(events, x), kind@, events[x.1].seq);
    let ghost g = |x: (int, int)| typed_count(prompt_contents(events, x), kind@);
    let ghost h = |x: (int, int)| binary_entries(prompt_contents(events, x), kind@, events[x.1].seq);
    let mut k: usize = 0;
    while k < exchanges.len()
        invariant
            k <= exchanges@.len(),
            exchanges_are(exchanges@, events, ixs),
            f == (|x: (int, int)| binary_sites(prompt_contents(events, x), kind@, events[x.1].seq)),
            sink.check_id() == old(sink).check_id(),
            g == (|x: (int, int)| typed_count(prompt_contents(events, x), kind@)),
            sink.subject_count() == after_counting(old(sink).subject_count(), xtally(ixs.take(k as int), g) as int),
            entry_seqs(sink.found()) == entry_seqs(old(sink).found()) + xsites(ixs.take(k as int), f),
            h == (|x: (int, int)| binary_entries(prompt_contents(events, x), kind@, events[x.1].seq)),
            crate::checks::entry_views(sink.found()) == crate::checks::entry_views(old(sink).found()) + xentries(ixs.take(k as int), h),
        decreases exchanges@.len() - k,
    {
        proof { lemma_xsites_take(ixs, f, k as int); lemma_xtally_take(ixs, g, k as int); lemma_xentries_take(ixs, h, k as int); }
        let exchange = &exchanges[k];
        assert(*exchange.request == events[ixs[k as int].0]);
        let seq = exchange.response.seq;
        let items = contents_of(exchange.result);
        let ghost iv = items@.map_values(|j: &Json| *j);
        let ghost start = entry_seqs(sink.found());
        let ghost views = crate::checks::entry_views(sink.found());
        let ghost counted = xtally(ixs.take(k as int), g);
        let mut j: usize = 0;
        while j < items.len()
            invariant
                j <= items@.len(),
                iv == items@.map_values(|j: &Json| *j),
                sink.check_id() == old(sink).check_id(),
                entry_seqs(sink.found()) == start + binary_sites(iv.take(j as int), kind@, seq),
                crate::checks::entry_views(sink.found()) == views + binary_entries(iv.take(j as int), kind@, seq),
                sink.subject_count() == after_counting(old(sink).subject_count(),
                    (counted + typed_count(iv.take(j as int), kind@)) as int),
            decreases items@.len() - j,
        {
            proof { assert(iv.take(j + 1).drop_last() =~= iv.take(j as int)); }
            let content = items[j];
            let ghost before = entry_seqs(sink.found());
            let ghost before_views = crate::checks::entry_views(sink.found());
            let typed = match content.get("type") {
                Some(t) => match t.as_str() {
                    Some(s) => text_eq(s, kind),
                    None => false,
                },
                None => false,
            };
            if typed {
                sink.examined();
                let data_valid = match content.get("data") {
                    Some(d) => match d.as_str() {
                        Some(s) => is_base64(s),
                        None => false,
                    },
                    None => false,
                };
                if !data_valid {
                    let mut d = owned(kind);
                    push_text(&mut d, " content data is not valid base64");
                    sink.push(Some(seq), d);
                }
                let mime = match content.get("mimeType") {
                    Some(m) => match m.as_str() {
                        Some(s) => mime_present(s),
                        None => false,
                    },
                    None => false,
                };
                if !mime {
                    let mut d = owned(kind);
                    push_text(&mut d, " content lacks a valid mimeType (expected type/subtype)");
                    sink.push(Some(seq), d);
                }
            }
            assert(entry_seqs(sink.found()) =~= before + binary_item_sites(iv[j as int], kind@, seq));
            assert(crate::checks::entry_views(sink.found()) =~= before_views + binary_item_entries(iv[j as int], kind@, seq));
            j = j + 1;
        }
        proof { assert(iv.take(iv.len() as int) =~= iv); }
        k = k + 1;
    }
    proof { lemma_xsites_all(ixs, f); lemma_xtally_all(ixs, g); lemma_xentries_all(ixs, h); }
}

/// `PROM-003`: image content data must be base64 with a MIME type present.
pub fn image_content_encoding(context: &TraceContext<'_>, sink: &mut FindingSink)
    ensures
        final(sink).check_id() == old(sink).check_id(),
        entry_seqs(final(sink).found()) == entry_seqs(old(sink).found())
            + xsites(get_ixs(context.trace(), context.pairs()),
                |x: (int, int)| binary_sites(prompt_contents(context.trace(), x), "image"@, context.trace()[x.1].seq)),
        crate::checks::entry_views(final(sink).found()) == crate::checks::entry_views(old(sink).found())
            + xentries(get_ixs(context.trace(), context.pairs()),
                |x: (int, int)| binary_entries(prompt_contents(context.trace(), x), "image"@, context.trace()[x.1].seq)),
        final(sink).subject_count() == after_counting(old(sink).subject_count(),
            xtally(get_ixs(context.trace(), context.pairs()),
                |x: (int, int)| typed_count(prompt_contents(context.trace(), x), "image"@)) as int),
{
    binary_content_encoding(context, sink, "image");
}

/// `PROM-004`: audio content data must be base64 with a MIME type present.
pub fn audio_content_encoding(context: &TraceContext<'_>, sink: &mut FindingSink)
    ensures
        final(sink).check_id() == old(sink).check_id(),
        entry_seqs(final(sink).found()) == entry_seqs(old(sink).found())
            + xsites(get_ixs(context.trace(), context.pairs()),
                |x: (int, int)| binary_sites(prompt_contents(context.trace(), x), "audio"@, context.trace()[x.1].seq)),
        crate::checks::entry_views(final(sink).found()) == crate::checks::entry_views(old(sink).found())
            + xentries(get_ixs(context.trace(), context.pairs()),
                |x: (int, int)| binary_entries(prompt_contents(context.trace(), x), "audio"@, context.trace()[x.1].seq)),
        final(sink).subject_count() == after_counting(old(sink).subject_count(),
            xtally(get_ixs(context.trace(), context.pairs()),
                |x: (int, int)| typed_count(prompt_contents(context.trace(), x), "audio"@)) as int),
{
    binary_content_encoding(context, sink, "audio");
}

/// The string member `key` of `v`.
pub open spec fn text_member(v: Json, key: Seq<char>) -> Option<Seq<char>> {
    match v.at(key) {
        Some(s) => s.text(),
        None => None,
    }
}

/// The findings of one embedded resource item: no `resource` member; else an
/// invalid URI, a missing MIME type, and anything but exactly one of text or
/// base64 blob.
pub open spec fn embedded_item_sites(item: Json, seq: u64) -> Seq<Option<u64>> {
    if !of_type(item, "resource"@) {
        Seq::empty()
    } else {
        match item.at("resource"@) {
            None => seq![Some(seq)],
            Some(r) => {
                let text = text_member(r, "text"@);
                let blob = text_member(r, "blob"@);
                (if text_member(r, "uri"@) matches Some(u) && has_scheme(u) { Seq::empty() } else { seq![Some(seq)] })
                    + (if text_member(r, "mimeType"@) is Some { Seq::empty() } else { seq![Some(seq)] })
                    + (if (text is Some && blob is None) || (text is None && (blob matches Some(b) && base64_valid(b))) {
                        Seq::empty()
                    } else {
                        seq![Some(seq)]
                    })
            },
        }
    }
}

/// Those findings over a list of items.
pub open spec fn embedded_sites(items: Seq<Json>, seq: u64) -> Seq<Option<u64>>
    decreases items.len(),
{
    if items.len() == 0 {
        Seq::empty()
    } else {
        embedded_sites(items.drop_last(), seq) + embedded_item_sites(items.last(), seq)
    }
}

/// The findings, as (seq, sentence), of one embedded resource item.
pub open spec fn embedded_item_entries(item: Json, seq: u64) -> Seq<(Option<u64>, Seq<char>)> {
    if !of_type(item, "resource"@) {
        Seq::empty()
    } else {
        match item.at("resource"@) {
            None => seq![(Some(seq), "embedded resource content lacks the resource member"@)],
            Some(r) => {
                let text = text_member(r, "text"@);
                let blob = text_member(r, "blob"@);
                (if text_member(r, "uri"@) matches Some(u) && has_scheme(u) { Seq::empty() } else {
                    seq![(Some(seq), "embedded resource lacks a valid resource URI"@)] })
                    + (if text_member(r, "mimeType"@) is Some { Seq::empty() } else {
                        seq![(Some(seq), "embedded resource lacks a mimeType"@)] })
                    + (if text is Some && blob is None {
                        Seq::empty()
                    } else if text is None && blob is Some {
                        if base64_valid(blob.unwrap()) { Seq::empty() } else {
                            seq![(Some(seq), "embedded resource blob is not valid base64"@)] }
                    } else if text is Some {
                        seq![(Some(seq), "embedded resource carries both text and blob; expected exactly one"@)]
                    } else {
                        seq![(Some(seq), "embedded resource carries neither text nor blob data"@)]
                    })
            },
        }
    }
}

/// Those findings over a list of items.
pub open spec fn embedded_entries(items: Seq<Json>, seq: u64) -> Seq<(Option<u64>, Seq<char>)>
    decreases items.len(),
{
    if items.len() == 0 {
        Seq::empty()
    } else {
        embedded_entries(items.drop_last(), seq) + embedded_item_entries(items.last(), seq)
    }
}

/// The string member `key` of `v`.
fn text_member_of<'a>(v: &'a Json, key: &str) -> (r: Option<&'a str>)
    ensures
        match r {
            Some(s) => text_member(*v, key@) == Some(s@),
            None => text_member(*v, key@) is None,
        },
{
    match v.get(key) {
        Some(s) => s.as_str(),
        None => None,
    }
}

/// Judges one embedded resource item.
fn judge_embedded(content: &Json, seq: u64, sink: &mut FindingSink)
    ensures
        final(sink).check_id() == old(sink).check_id(),
        entry_seqs(final(sink).found()) == entry_seqs(old(sink).found()) + embedded_item_sites(*content, seq),
        final(sink).subject_count() == after_counting(old(sink).subject_count(),
            if of_type(*content, "resource"@) { 1int } else { 0int }),
        crate::checks::entry_views(final(sink).found()) == crate::checks::entry_views(old(sink).found())
            + embedded_item_entries(*content, seq),
{
    let typed = match text_member_of(content, "type") {
        Some(s) => text_eq(s, "resource"),
        None => false,
    };
    if !typed {
        assert(entry_seqs(sink.found()) =~= entry_seqs(old(sink).found()) + embedded_item_sites(*content, seq));
        assert(crate::checks::entry_views(sink.found()) =~= crate::checks::entry_views(old(sink).found())
            + embedded_item_entries(*content, seq));
        sink.examined_many(0);
        return;
    }
    sink.examined();
    let resource = match content.get("resource") {
        Some(r) => r,
        None => {
            sink.push(Some(seq), owned("embedded resource content lacks the resource member"));
            assert(crate::checks::entry_views(sink.found()) =~= crate::checks::entry_views(old(sink).found())
                + embedded_item_entries(*content, seq));
            return;
        },
    };
    let ghost start = entry_seqs(sink.found());
    let uri_ok = match text_member_of(resource, "uri") {
        Some(u) => has_rfc3986_scheme(u),
        None => false,
    };
    if !uri_ok {
        sink.push(Some(seq), owned("embedded resource lacks a valid resource URI"));
    }
    if text_member_of(resource, "mimeType").is_none() {
        sink.push(Some(seq), owned("embedded resource lacks a mimeType"));
    }
    let text = text_member_of(resource, "text");
    let blob = text_member_of(resource, "blob");
    match (text, blob) {
        (Some(_), None) => {},
        (None, Some(b)) => {
            if !is_base64(b) {
                sink.push(Some(seq), owned("embedded resource blob is not valid base64"));
            }
        },
        (Some(_), Some(_)) => {
            sink.push(Some(seq), owned("embedded resource carries both text and blob; expected exactly one"));
        },
        (None, None) => {
            sink.push(Some(seq), owned("embedded resource carries neither text nor blob data"));
        },
    }
    assert(entry_seqs(sink.found()) =~= entry_seqs(old(sink).found()) + embedded_item_sites(*content, seq));
    assert(crate::checks::entry_views(sink.found()) =~= crate::checks::entry_views(old(sink).found())
        + embedded_item_entries(*content, seq));
}

/// `PROM-005`: embedded resources must include a valid resource URI, the
/// appropriate MIME type, and either text or base64 blob data.
pub fn embedded_resource_shape(context: &TraceContext<'_>, sink: &mut FindingSink)
    ensures
        final(sink).check_id() == old(sink).check_id(),
        entry_seqs(final(sink).found()) == entry_seqs(old(sink).found())
            + xsites(get_ixs(context.trace(), context.pairs()),
                |x: (int, int)| embedded_sites(prompt_contents(context.trace(), x), context.trace()[x.1].seq)),
        final(sink).subject_count() == after_counting(old(sink).subject_count(),
            xtally(get_ixs(context.trace(), context.pairs()),
                |x: (int, int)| typed_count(prompt_contents(context.trace(), x), "resource"@)) as int),
        crate::checks::entry_views(final(sink).found()) == crate::checks::entry_views(old(sink).found())
            + xentries(get_ixs(context.trace(), context.pairs()),
                |x: (int, int)| embedded_entries(prompt_contents(context.trace(), x), context.trace()[x.1].seq)),
{
    sink.examined_many(0);
    let exchanges = context.exchanges_for("prompts/get");
    let ghost events = context.trace();
    let ghost ixs = get_ixs(context.trace(), context.pairs());
    let ghost f = |x: (int, int)| embedded_sites(prompt_contents(events, x), events[x.1].seq);
    let ghost g = |x: (int, int)| typed_count(prompt_contents(events, x), "resource"@);
    let ghost h = |x: (int, int)| embedded_entries(prompt_contents(events, x), events[x.1].seq);
    let mut k: usize = 0;
    while k < exchanges.len()
        invariant
            k <= exchanges@.len(),
            exchanges_are(exchanges@, events, ixs),
            f == (|x: (int, int)| embedded_sites(prompt_contents(events, x), events[x.1].seq)),
            sink.check_id() == old(sink).check_id(),
            entry_seqs(sink.found()) == entry_seqs(old(sink).found()) + xsites(ixs.take(k as int), f),
            g == (|x: (int, int)| typed_count(prompt_contents(events, x), "resource"@)),
            sink.subject_count() == after_counting(old(sink).subject_count(), xtally(ixs.take(k as int), g) as int),
            h == (|x: (int, int)| embedded_entries(prompt_contents(events, x), events[x.1].seq)),
            crate::checks::entry_views(sink.found()) == crate::checks::entry_views(old(sink).found()) + xentries(ixs.take(k as int), h),
        decreases exchanges@.len() - k,
    {
        proof { lemma_xsites_take(ixs, f, k as int); lemma_xtally_take(ixs, g, k as int); lemma_xentries_take(ixs, h, k as int); }
        let exchange = &exchanges[k];
        assert(*exchange.request == events[ixs[k as int].0]);
        let seq = exchange.response.seq;
        let items = contents_of(exchange.result);
        let ghost iv = items@.map_values(|j: &Json| *j);
        let ghost start = entry_seqs(sink.found());
        let ghost counted = xtally(ixs.take(k as int), g);
        let ghost views = crate::checks::entry_views(sink.found());
        let mut j: usize = 0;
        while j < items.len()
            invariant
                j <= items@.len(),
                iv == items@.map_values(|j: &Json| *j),
                sink.check_id() == old(sink).check_id(),
                entry_seqs(sink.found()) == start + embedded_sites(iv.take(j as int), seq),
                sink.subject_count() == after_counting(old(sink).subject_count(),
                    (counted + typed_count(iv.take(j as int), "resource"@)) as int),
                crate::checks::entry_views(sink.found()) == views + embedded_entries(iv.take(j as int), seq),
            decreases items@.len() - j,
        {
            proof { assert(iv.take(j + 1).drop_last() =~= iv.take(j as int)); }
            judge_embedded(items[j], seq, sink);
            j = j + 1;
        }
        proof { assert(iv.take(iv.len() as int) =~= iv); }
        k = k + 1;
    }
    proof { lemma_xsites_all(ixs, f); lemma_xtally_all(ixs, g); lemma_xentries_all(ixs, h); }
}

/// The names of a prompt's arguments marked `required: true`.
pub open spec fn required_of(arguments: Seq<Json>) -> Seq<Seq<char>>
    decreases arguments.len(),
{
    if arguments.len() == 0 {
        Seq::empty()
    } else {
        let a = arguments.last();
        if a.at("required"@) == Some(Json::Bool(true)) && text_member(a, "name"@) is Some {
            required_of(arguments.drop_last()).push(text_member(a, "name"@).unwrap())
        } else {
            required_of(arguments.drop_last())
        }
    }
}

/// The declarations of one `prompts/list` result's prompts: each named prompt
/// with required arguments binds its name to them, a later listing winning.
pub open spec fn declare_prompts(
    m: Seq<(Seq<char>, Seq<Seq<char>>)>,
    prompts: Seq<Json>,
) -> Seq<(Seq<char>, Seq<Seq<char>>)>
    decreases prompts.len(),
{
    if prompts.len() == 0 {
        m
    } else {
        let prev = declare_prompts(m, prompts.drop_last());
        let p = prompts.last();
        let required = required_of(items_of(Some(p), "arguments"@));
        if text_member(p, "name"@) is Some && required.len() > 0 {
            bind(prev, text_member(p, "name"@).unwrap(), required)
        } else {
            prev
        }
    }
}

/// The required arguments declared across the `prompts/list` results at `ixs`.
pub open spec fn declared_arguments(events: Seq<TraceEvent>, ixs: Seq<(int, int)>) -> Seq<(Seq<char>, Seq<Seq<char>>)>
    decreases ixs.len(),
{
    if ixs.len() == 0 {
        Seq::empty()
    } else {
        declare_prompts(declared_arguments(events, ixs.drop_last()), items_of(x_result(events, ixs.last()), "prompts"@))
    }
}

/// The declaration table's contents.
pub open spec fn table_view(v: Seq<(String, Vec<String>)>) -> Seq<(Seq<char>, Seq<Seq<char>>)> {
    Seq::new(v.len(), |i: int| (v[i].0@, texts(v[i].1@)))
}

/// The required argument names of a prompt's `arguments`.
fn required_names(prompt: &Json) -> (r: Vec<String>)
    ensures
        texts(r@) == required_of(items_of(Some(*prompt), "arguments"@)),
{
    let mut out: Vec<String> = Vec::new();
    match items_in(Some(prompt), "arguments") {
        Some(arguments) => {
            let mut i: usize = 0;
            while i < arguments.len()
                invariant
                    i <= arguments@.len(),
                    texts(out@) == required_of(arguments@.take(i as int)),
                decreases arguments@.len() - i,
            {
                proof { assert(arguments@.take(i + 1).drop_last() =~= arguments@.take(i as int)); }
                let a = &arguments[i];
                let required = match a.get("required") {
                    Some(Json::Bool(b)) => *b,
                    _ => false,
                };
                if required {
                    if let Some(name) = text_member_of(a, "name") {
                        let ghost before = out@;
                        out.push(owned(name));
                        assert(texts(out@) =~= texts(before).push(name@));
                    }
                }
                i = i + 1;
            }
            proof { assert(arguments@.take(arguments@.len() as int) =~= arguments@); }
        },
        None => {
            assert(texts(out@) =~= Seq::<Seq<char>>::empty());
        },
    }
    out
}

/// Binds `name` to `required` in the declaration table.
fn bind_required(table: &mut Vec<(String, Vec<String>)>, name: String, required: Vec<String>)
    ensures
        table_view(final(table)@) == bind(table_view(old(table)@), name@, texts(required@)),
{
    proof { assert(names(table@) =~= keys_of(table_view(table@))); }
    let ghost before = table_view(table@);
    let ghost (nv, rv) = (name@, texts(required@));
    match find_key(table, name.as_str()) {
        Some(k) => {
            table.set(k, (name, required));
            assert(table_view(table@) =~= before.update(k as int, (nv, rv)));
        },
        None => {
            table.push((name, required));
            assert(table_view(table@) =~= before.push((nv, rv)));
        },
    }
}

/// The names of `required` that `arguments` does not supply.
pub open spec fn missing_of(required: Seq<Seq<char>>, arguments: Option<Json>) -> Seq<Seq<char>>
    decreases required.len(),
{
    if required.len() == 0 {
        Seq::empty()
    } else {
        let supplied = match arguments {
            Some(a) => a.at(required.last()) is Some,
            None => false,
        };
        if supplied {
            missing_of(required.drop_last(), arguments)
        } else {
            missing_of(required.drop_last(), arguments).push(required.last())
        }
    }
}

/// A `prompts/get` the server answered although the request omitted a
/// required argument the server declared.
pub open spec fn unvalidated_site(
    events: Seq<TraceEvent>,
    table: Seq<(Seq<char>, Seq<Seq<char>>)>,
    x: (int, int),
) -> Seq<Option<u64>> {
    if x_result(events, x) is Some && x_params(events, x) is Some
        && (called_name(x_params(events, x)) matches Some(n) && bound(table, n) is Some
            && missing_of(bound(table, n).unwrap(), x_params(events, x).unwrap().at("arguments"@)).len() > 0) {
        seq![Some(events[x.1].seq)]
    } else {
        Seq::empty()
    }
}

/// One subject per answered `prompts/get` naming a prompt with declared
/// required arguments.
pub open spec fn validated_subject(
    events: Seq<TraceEvent>,
    table: Seq<(Seq<char>, Seq<Seq<char>>)>,
    x: (int, int),
) -> nat {
    if x_result(events, x) is Some && x_params(events, x) is Some
        && (called_name(x_params(events, x)) matches Some(n) && bound(table, n) is Some) { 1 } else { 0 }
}

/// `PROM-008`: "Servers SHOULD validate prompt arguments before processing".
/// A server that answers a `prompts/get` with a result when the request
/// omits an argument the server itself published as required in
/// `prompts/list` processed input it had declared invalid. Only prompts whose
/// required arguments were observed being declared are judged.
pub fn arguments_validated(context: &TraceContext<'_>, sink: &mut FindingSink)
    ensures
        final(sink).check_id() == old(sink).check_id(),
        final(sink).subject_count() == after_counting(old(sink).subject_count(),
            xtally(get_ixs(context.trace(), context.pairs()), |x: (int, int)| validated_subject(context.trace(), declared_arguments(context.trace(), exchange_ixs(context.trace(), context.pairs(), Some("prompts/list"@), context.trace().len() as nat)), x)) as int),
        entry_seqs(final(sink).found()) == entry_seqs(old(sink).found())
            + xsites(get_ixs(context.trace(), context.pairs()), |x: (int, int)| unvalidated_site(context.trace(),
                declared_arguments(context.trace(), exchange_ixs(context.trace(), context.pairs(),
                    Some("prompts/list"@), context.trace().len() as nat)), x)),
{
    sink.examined_many(0);
    let lists = context.exchanges_for("prompts/list");
    let ghost events = context.trace();
    let ghost lixs = exchange_ixs(context.trace(), context.pairs(), Some("prompts/list"@), context.trace().len() as nat);
    let mut table: Vec<(String, Vec<String>)> = Vec::new();
    let mut k: usize = 0;
    assert(table_view(table@) =~= Seq::<(Seq<char>, Seq<Seq<char>>)>::empty());
    while k < lists.len()
        invariant
            k <= lists@.len(),
            exchanges_are(lists@, events, lixs),
            table_view(table@) == declared_arguments(events, lixs.take(k as int)),
        decreases lists@.len() - k,
    {
        proof { assert(lixs.take(k + 1).drop_last() =~= lixs.take(k as int)); }
        let exchange = &lists[k];
        assert(*exchange.request == events[lixs[k as int].0]);
        let ghost start = table_view(table@);
        match items_in(exchange.result, "prompts") {
            Some(prompts) => {
                let mut j: usize = 0;
                while j < prompts.len()
                    invariant
                        j <= prompts@.len(),
                        table_view(table@) == declare_prompts(start, prompts@.take(j as int)),
                    decreases prompts@.len() - j,
                {
                    proof { assert(prompts@.take(j + 1).drop_last() =~= prompts@.take(j as int)); }
                    let p = &prompts[j];
                    if let Some(name) = text_member_of(p, "name") {
                        let required = required_names(p);
                        if required.len() > 0 {
                            bind_required(&mut table, owned(name), required);
                        }
                    }
                    j = j + 1;
                }
                proof { assert(prompts@.take(prompts@.len() as int) =~= prompts@); }
            },
            None => {},
        }
        k = k + 1;
    }
    proof { assert(lixs.take(lixs.len() as int) =~= lixs); }
    let ghost tv = table_view(table@);
    let exchanges = context.exchanges_for("prompts/get");
    let ghost ixs = get_ixs(context.trace(), context.pairs());
    let ghost f = |x: (int, int)| unvalidated_site(events, tv, x);
    let ghost g = |x: (int, int)| validated_subject(events, tv, x);
    let mut k: usize = 0;
    while k < exchanges.len()
        invariant
            k <= exchanges@.len(),
            exchanges_are(exchanges@, events, ixs),
            tv == table_view(table@),
            f == (|x: (int, int)| unvalidated_site(events, tv, x)),
            sink.check_id() == old(sink).check_id(),
            g == (|x: (int, int)| validated_subject(events, tv, x)),
            sink.subject_count() == after_counting(old(sink).subject_count(), xtally(ixs.take(k as int), g) as int),
            entry_seqs(sink.found()) == entry_seqs(old(sink).found()) + xsites(ixs.take(k as int), f),
        decreases exchanges@.len() - k,
    {
        proof { lemma_xsites_take(ixs, f, k as int); lemma_xtally_take(ixs, g, k as int); }
        let exchange = &exchanges[k];
        assert(*exchange.request == events[ixs[k as int].0]);
        if exchange.result.is_some() {
            if let Some(params) = exchange.params {
                if let Some(name) = text_member_of(params, "name") {
                    proof { assert(names(table@) =~= keys_of(tv)); }
                    if let Some(at) = find_key(&table, name) {
                        sink.examined();
                        let required = &table[at].1;
                        let supplied = params.get("arguments");
                        let mut missing: Vec<String> = Vec::new();
                        let mut i: usize = 0;
                        while i < required.len()
                            invariant
                                i <= required@.len(),
                                texts(missing@) == missing_of(texts(required@).take(i as int), crate::message::opt(supplied)),
                            decreases required@.len() - i,
                        {
                            proof {
                                assert(texts(required@).take(i + 1).drop_last() =~= texts(required@).take(i as int));
                            }
                            let present = match supplied {
                                Some(a) => a.get(required[i].as_str()).is_some(),
                                None => false,
                            };
                            if !present {
                                let ghost before = missing@;
                                missing.push(owned(required[i].as_str()));
                                assert(texts(missing@) =~= texts(before).push(required@[i as int]@));
                            }
                            i = i + 1;
                        }
                        proof { assert(texts(required@).take(required@.len() as int) =~= texts(required@)); }
                        if missing.len() > 0 {
                            let mut d = owned("server returned a result for prompts/get ");
                            let q = debug_text(name);
                            push_text(&mut d, q.as_str());
                            push_text(&mut d, " although the request omitted the required argument(s) [");
                            let mut m: usize = 0;
                            while m < missing.len()
                                invariant
                                    m <= missing@.len(),
                                decreases missing@.len() - m,
                            {
                                if m > 0 {
                                    push_text(&mut d, ", ");
                                }
                                let q = debug_text(missing[m].as_str());
                                push_text(&mut d, q.as_str());
                                m = m + 1;
                            }
                            push_text(&mut d, "] it declared in prompts/list");
                            sink.push(Some(exchange.response.seq), d);
                        }
                    }
                }
            }
        }
        k = k + 1;
    }
    proof { lemma_xsites_all(ixs, f); lemma_xtally_all(ixs, g); }
}

} // verus!
