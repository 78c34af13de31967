//! Checks for the `2025-11-25` tools requirements (`TOOL-*`).
//!
//! List-shaped evidence comes from `tools/list` results; call-shaped evidence
//! from `tools/call` exchanges. Checks abstain when the trace lacks the
//! evidence a judgment needs: a missing `initialize` result, an error
//! response, a tool object without a `name`.

use vstd::prelude::*;
use crate::checks::after_counting;
use crate::checks::sites::{tally, xtally, lemma_tally_take, lemma_xtally_take, lemma_tally_all, lemma_xtally_all};
use crate::checks::{FindingSink, entry_seqs, entry_views};
use crate::checks::sites::{xentries, lemma_xentries_take, lemma_xentries_all};
use crate::checks::sites::{xsites, lemma_xsites_take, lemma_xsites_all};
use crate::checks::support::{Declaration, server_capability, server_declaration, path_view};
use crate::context::{TraceContext, Exchange, exchanges_are, exchange_ixs};
use crate::json::Json;
use crate::text::{owned, push_text, text_of_chars, text_eq, starts_with, debug_text, chars_of, contains_text, texts,
    u64_text, is_alnum, ascii_alnum};
use crate::trace::TraceEvent;

verus! {

/// The `result` of the response at exchange `x`.
pub open spec fn x_result(events: Seq<TraceEvent>, x: (int, int)) -> Option<Json> {
    events[x.1].payload().unwrap().at("result"@)
}

/// The `params` of the request at exchange `x`.
pub open spec fn x_params(events: Seq<TraceEvent>, x: (int, int)) -> Option<Json> {
    events[x.0].payload().unwrap().at("params"@)
}

/// The array member `key` of an optional object, or nothing.
pub open spec fn items_of(v: Option<Json>, key: Seq<char>) -> Seq<Json> {
    match v {
        Some(o) => match o.at(key) {
            Some(Json::Array(a)) => a@,
            _ => Seq::empty(),
        },
        None => Seq::empty(),
    }
}

/// The array member `key` of an optional object.
pub fn items_in<'a>(v: Option<&'a Json>, key: &str) -> (r: Option<&'a Vec<Json>>)
    ensures
        match r {
            Some(a) => items_of(crate::message::opt(v), key@) == a@,
            None => items_of(crate::message::opt(v), key@) == Seq::<Json>::empty(),
        },
{
    match v {
        Some(o) => match o.get(key) {
            Some(Json::Array(a)) => Some(a),
            _ => None,
        },
        None => None,
    }
}

/// One finding at `seq` per item that breaks `bad`.
pub open spec fn per_item(items: Seq<Json>, seq: u64, bad: spec_fn(Json) -> bool) -> Seq<Option<u64>>
    decreases items.len(),
{
    if items.len() == 0 {
        Seq::empty()
    } else {
        per_item(items.drop_last(), seq, bad) + (if bad(items.last()) { seq![Some(seq)] } else { Seq::empty() })
    }
}

/// The findings, as (seq, sentence), of the items that `bad` holds of, each
/// with the sentence `say` gives it.
pub open spec fn per_item_entries(items: Seq<Json>, seq: u64, bad: spec_fn(Json) -> bool, say: spec_fn(Json) -> Seq<char>)
    -> Seq<(Option<u64>, Seq<char>)>
    decreases items.len(),
{
    if items.len() == 0 {
        Seq::empty()
    } else {
        per_item_entries(items.drop_last(), seq, bad, say)
            + (if bad(items.last()) { seq![(Some(seq), say(items.last()))] } else { Seq::empty() })
    }
}

/// The string `name` of a tool object.
pub open spec fn tool_name(tool: Json) -> Option<Seq<char>> {
    match tool.at("name"@) {
        Some(n) => n.text(),
        None => None,
    }
}

/// A short identifier for a tool object in findings: its quoted name, or
/// `(unnamed)`.
/// How a tool is named in findings: its `Debug`-quoted name, or `(unnamed)`.
pub open spec fn name_label_text(name: Option<Seq<char>>) -> Seq<char> {
    match name {
        Some(n) => crate::text::debug_quoted(n),
        None => "(unnamed)"@,
    }
}

fn tool_label(tool: &Json) -> (r: String)
    ensures
        r@ == name_label_text(tool_name(*tool)),
{
    match tool.get("name") {
        Some(n) => match n.as_str() {
            Some(name) => debug_text(name),
            None => owned("(unnamed)"),
        },
        None => owned("(unnamed)"),
    }
}

/// The quoted name of a called tool, or `(unnamed)`.
fn name_label(name: Option<&str>) -> (r: String)
    ensures
        r@ == name_label_text(match name {
            Some(n) => Some(n@),
            None => None,
        }),
{
    match name {
        Some(n) => debug_text(n),
        None => owned("(unnamed)"),
    }
}

/// The tools of the `tools/list` result at exchange `x`.
pub open spec fn listed(events: Seq<TraceEvent>, x: (int, int)) -> Seq<Json> {
    items_of(x_result(events, x), "tools"@)
}

/// The `tools/list` exchanges of a trace.
pub open spec fn list_ixs(events: Seq<TraceEvent>, pairs: Seq<Option<usize>>) -> Seq<(int, int)> {
    exchange_ixs(events, pairs, Some("tools/list"@), events.len() as nat)
}

/// The `tools/call` exchanges of a trace.
pub open spec fn call_ixs(events: Seq<TraceEvent>, pairs: Seq<Option<usize>>) -> Seq<(int, int)> {
    exchange_ixs(events, pairs, Some("tools/call"@), events.len() as nat)
}

/// A listed tool whose `inputSchema` is present and not an object.
pub open spec fn schema_bad(tool: Json) -> bool {
    tool.at("inputSchema"@) matches Some(s) && !(s is Object)
}

/// `TOOL-003`: a listed tool's `inputSchema` must be a JSON Schema object.
pub fn input_schema_object(context: &TraceContext<'_>, sink: &mut FindingSink)
    ensures
        final(sink).check_id() == old(sink).check_id(),
        final(sink).subject_count() == old(sink).subject_count(),
        entry_seqs(final(sink).found()) == entry_seqs(old(sink).found())
            + xsites(list_ixs(context.trace(), context.pairs()),
                |x: (int, int)| per_item(listed(context.trace(), x), context.trace()[x.1].seq, |t: Json| schema_bad(t))),
        entry_views(final(sink).found()) == entry_views(old(sink).found())
            + xentries(list_ixs(context.trace(), context.pairs()),
                |x: (int, int)| per_item_entries(listed(context.trace(), x), context.trace()[x.1].seq,
                    |t: Json| schema_bad(t), |t: Json| "tool "@ + name_label_text(tool_name(t)) + " has an inputSchema that is not a JSON Schema object: "@ + crate::json::json_text(t.at("inputSchema"@).unwrap()))),
{
    let exchanges = context.exchanges_for("tools/list");
    let ghost events = context.trace();
    let ghost ixs = list_ixs(context.trace(), context.pairs());
    let ghost bad = |t: Json| schema_bad(t);
    let ghost f = |x: (int, int)| per_item(listed(events, x), events[x.1].seq, bad);
    let ghost say = |t: Json| "tool "@ + name_label_text(tool_name(t)) + " has an inputSchema that is not a JSON Schema object: "@ + crate::json::json_text(t.at("inputSchema"@).unwrap());
    let ghost h = |x: (int, int)| per_item_entries(listed(events, x), events[x.1].seq, bad, say);
    let mut k: usize = 0;
    while k < exchanges.len()
        invariant
            k <= exchanges@.len(),
            exchanges_are(exchanges@, events, ixs),
            f == (|x: (int, int)| per_item(listed(events, x), events[x.1].seq, bad)),
            bad == (|t: Json| schema_bad(t)),
            sink.check_id() == old(sink).check_id(),
            sink.subject_count() == old(sink).subject_count(),
            entry_seqs(sink.found()) == entry_seqs(old(sink).found()) + xsites(ixs.take(k as int), f),
            say == (|t: Json| "tool "@ + name_label_text(tool_name(t)) + " has an inputSchema that is not a JSON Schema object: "@ + crate::json::json_text(t.at("inputSchema"@).unwrap())),
            h == (|x: (int, int)| per_item_entries(listed(events, x), events[x.1].seq, bad, say)),
            entry_views(sink.found()) == entry_views(old(sink).found()) + xentries(ixs.take(k as int), h),
        decreases exchanges@.len() - k,
    {
        proof { lemma_xsites_take(ixs, f, k as int); lemma_xentries_take(ixs, h, k as int); }
        let exchange = &exchanges[k];
        assert(*exchange.request == events[ixs[k as int].0]);
        let seq = exchange.response.seq;
        let ghost start = entry_seqs(sink.found());
        let ghost start_views = entry_views(sink.found());
        match items_in(exchange.result, "tools") {
            Some(tools) => {
                let mut j: usize = 0;
                while j < tools.len()
                    invariant
                        j <= tools@.len(),
                        bad == (|t: Json| schema_bad(t)),
                        sink.check_id() == old(sink).check_id(),
                        sink.subject_count() == old(sink).subject_count(),
                        entry_seqs(sink.found()) == start + per_item(tools@.take(j as int), seq, bad),
                        say == (|t: Json| "tool "@ + name_label_text(tool_name(t)) + " has an inputSchema that is not a JSON Schema object: "@ + crate::json::json_text(t.at("inputSchema"@).unwrap())),
                        entry_views(sink.found()) == start_views + per_item_entries(tools@.take(j as int), seq, bad, say),
                    decreases tools@.len() - j,
                {
                    proof { assert(tools@.take(j + 1).drop_last() =~= tools@.take(j as int)); }
                    let tool = &tools[j];
                    if let Some(schema) = tool.get("inputSchema") {
                        if !schema.is_object() {
                            let mut d = owned("tool ");
                            let l = tool_label(tool);
                            push_text(&mut d, l.as_str());
                            push_text(&mut d, " has an inputSchema that is not a JSON Schema object: ");
                            let s = schema.to_text();
                            push_text(&mut d, s.as_str());
                            sink.push(Some(seq), d);
                        }
                    }
                    j = j + 1;
                }
                proof { assert(tools@.take(tools@.len() as int) =~= tools@); }
            },
            None => {
                assert(entry_seqs(sink.found()) =~= start + per_item(Seq::<Json>::empty(), seq, bad));
                assert(entry_views(sink.found()) =~= start_views + per_item_entries(Seq::<Json>::empty(), seq, bad, say));
            },
        }
        k = k + 1;
    }
    proof { lemma_xsites_all(ixs, f); lemma_xentries_all(ixs, h); }
}

/// A listed tool whose name is not 1 to 128 characters long.
pub open spec fn length_bad(tool: Json) -> bool {
    tool_name(tool) matches Some(n) && (n.len() < 1 || n.len() > 128)
}

/// `TOOL-005`: tool names should be 1 to 128 characters long, inclusive.
pub fn name_length(context: &TraceContext<'_>, sink: &mut FindingSink)
    ensures
        final(sink).check_id() == old(sink).check_id(),
        final(sink).subject_count() == old(sink).subject_count(),
        entry_seqs(final(sink).found()) == entry_seqs(old(sink).found())
            + xsites(list_ixs(context.trace(), context.pairs()),
                |x: (int, int)| per_item(listed(context.trace(), x), context.trace()[x.1].seq, |t: Json| length_bad(t))),
        entry_views(final(sink).found()) == entry_views(old(sink).found())
            + xentries(list_ixs(context.trace(), context.pairs()),
                |x: (int, int)| per_item_entries(listed(context.trace(), x), context.trace()[x.1].seq,
                    |t: Json| length_bad(t), |t: Json| "tool name "@ + crate::text::debug_quoted(tool_name(t).unwrap()) + " is "@ + crate::text::decimal(tool_name(t).unwrap().len()) + " characters long, expected 1 to 128"@)),
{
    let exchanges = context.exchanges_for("tools/list");
    let ghost events = context.trace();
    let ghost ixs = list_ixs(context.trace(), context.pairs());
    let ghost bad = |t: Json| length_bad(t);
    let ghost f = |x: (int, int)| per_item(listed(events, x), events[x.1].seq, bad);
    let ghost say = |t: Json| "tool name "@ + crate::text::debug_quoted(tool_name(t).unwrap()) + " is "@ + crate::text::decimal(tool_name(t).unwrap().len()) + " characters long, expected 1 to 128"@;
    let ghost h = |x: (int, int)| per_item_entries(listed(events, x), events[x.1].seq, bad, say);
    let mut k: usize = 0;
    while k < exchanges.len()
        invariant
            k <= exchanges@.len(),
            exchanges_are(exchanges@, events, ixs),
            f == (|x: (int, int)| per_item(listed(events, x), events[x.1].seq, bad)),
            bad == (|t: Json| length_bad(t)),
            sink.check_id() == old(sink).check_id(),
            sink.subject_count() == old(sink).subject_count(),
            entry_seqs(sink.found()) == entry_seqs(old(sink).found()) + xsites(ixs.take(k as int), f),
            say == (|t: Json| "tool name "@ + crate::text::debug_quoted(tool_name(t).unwrap()) + " is "@ + crate::text::decimal(tool_name(t).unwrap().len()) + " characters long, expected 1 to 128"@),
            h == (|x: (int, int)| per_item_entries(listed(events, x), events[x.1].seq, bad, say)),
            entry_views(sink.found()) == entry_views(old(sink).found()) + xentries(ixs.take(k as int), h),
        decreases exchanges@.len() - k,
    {
        proof { lemma_xsites_take(ixs, f, k as int); lemma_xentries_take(ixs, h, k as int); }
        let exchange = &exchanges[k];
        assert(*exchange.request == events[ixs[k as int].0]);
        let seq = exchange.response.seq;
        let ghost start = entry_seqs(sink.found());
        let ghost start_views = entry_views(sink.found());
        match items_in(exchange.result, "tools") {
            Some(tools) => {
                let mut j: usize = 0;
                while j < tools.len()
                    invariant
                        j <= tools@.len(),
                        bad == (|t: Json| length_bad(t)),
                        sink.check_id() == old(sink).check_id(),
                        sink.subject_count() == old(sink).subject_count(),
                        entry_seqs(sink.found()) == start + per_item(tools@.take(j as int), seq, bad),
                        say == (|t: Json| "tool name "@ + crate::text::debug_quoted(tool_name(t).unwrap()) + " is "@ + crate::text::decimal(tool_name(t).unwrap().len()) + " characters long, expected 1 to 128"@),
                        entry_views(sink.found()) == start_views + per_item_entries(tools@.take(j as int), seq, bad, say),
                    decreases tools@.len() - j,
                {
                    proof { assert(tools@.take(j + 1).drop_last() =~= tools@.take(j as int)); }
                    let tool = &tools[j];
                    if let Some(n) = tool.get("name") {
                        if let Some(name) = n.as_str() {
                            let cs = chars_of(name);
                            let length = cs.len();
                            if length < 1 || length > 128 {
                                let mut d = owned("tool name ");
                                let q = debug_text(name);
                                push_text(&mut d, q.as_str());
                                push_text(&mut d, " is ");
                                let t = u64_text(length as u64);
                                push_text(&mut d, t.as_str());
                                push_text(&mut d, " characters long, expected 1 to 128");
                                sink.push(Some(seq), d);
                            }
                        }
                    }
                    j = j + 1;
                }
                proof { assert(tools@.take(tools@.len() as int) =~= tools@); }
            },
            None => {
                assert(entry_seqs(sink.found()) =~= start + per_item(Seq::<Json>::empty(), seq, bad));
                assert(entry_views(sink.found()) =~= start_views + per_item_entries(Seq::<Json>::empty(), seq, bad, say));
            },
        }
        k = k + 1;
    }
    proof { lemma_xsites_all(ixs, f); lemma_xentries_all(ixs, h); }
}

/// Whether `c` may appear in a tool name: an ASCII letter or digit,
/// underscore, hyphen or dot.
pub open spec fn name_char(c: char) -> bool {
    is_alnum(c) || c == '_' || c == '-' || c == '.'
}

/// A listed tool whose name holds a character outside that set.
pub open spec fn charset_bad(tool: Json) -> bool {
    tool_name(tool) is Some && has_bad_char(tool_name(tool).unwrap())
}

/// Whether `n` holds a character that may not appear in a tool name.
pub open spec fn has_bad_char(n: Seq<char>) -> bool {
    exists|i: int| 0 <= i < n.len() && !name_char(#[trigger] n[i])
}

/// Law: a listed tool's name is reported for its characters exactly when it
/// holds a character that is not an ASCII letter (`a`-`z`, `A`-`Z`), an ASCII
/// digit (`0`-`9`), `_`, `-` or `.` — so `/`, a space or a comma anywhere in
/// the name is a finding.
pub proof fn lemma_tool_name_charset(tool: Json)
    requires
        tool_name(tool) is Some,
    ensures
        charset_bad(tool) <==> exists|i: int| 0 <= i < tool_name(tool).unwrap().len()
            && !(('a' <= #[trigger] tool_name(tool).unwrap()[i] && tool_name(tool).unwrap()[i] <= 'z')
                || ('A' <= tool_name(tool).unwrap()[i] && tool_name(tool).unwrap()[i] <= 'Z')
                || ('0' <= tool_name(tool).unwrap()[i] && tool_name(tool).unwrap()[i] <= '9')
                || tool_name(tool).unwrap()[i] == '_' || tool_name(tool).unwrap()[i] == '-'
                || tool_name(tool).unwrap()[i] == '.'),
{
}

/// The characters of `name` that may not appear in a tool name, in order.
fn offenders_of(name: &str) -> (r: Vec<char>)
    ensures
        (r@.len() > 0) == has_bad_char(name@),
{
    let cs = chars_of(name);
    let mut out: Vec<char> = Vec::new();
    let mut i: usize = 0;
    while i < cs.len()
        invariant
            cs@ == name@,
            i <= cs@.len(),
            (out@.len() > 0) == exists|k: int| 0 <= k < i && !name_char(#[trigger] cs@[k]),
        decreases cs@.len() - i,
    {
        let c = cs[i];
        if !(ascii_alnum(c) || c == '_' || c == '-' || c == '.') {
            out.push(c);
        }
        i = i + 1;
    }
    out
}

/// `TOOL-006`/`TOOL-007`: tool names should use only ASCII letters, digits,
/// underscore, hyphen and dot.
pub fn name_charset(context: &TraceContext<'_>, sink: &mut FindingSink)
    ensures
        final(sink).check_id() == old(sink).check_id(),
        final(sink).subject_count() == old(sink).subject_count(),
        entry_seqs(final(sink).found()) == entry_seqs(old(sink).found())
            + xsites(list_ixs(context.trace(), context.pairs()),
                |x: (int, int)| per_item(listed(context.trace(), x), context.trace()[x.1].seq, |t: Json| charset_bad(t))),
{
    let exchanges = context.exchanges_for("tools/list");
    let ghost events = context.trace();
    let ghost ixs = list_ixs(context.trace(), context.pairs());
    let ghost bad = |t: Json| charset_bad(t);
    let ghost f = |x: (int, int)| per_item(listed(events, x), events[x.1].seq, bad);
    let mut k: usize = 0;
    while k < exchanges.len()
        invariant
            k <= exchanges@.len(),
            exchanges_are(exchanges@, events, ixs),
            f == (|x: (int, int)| per_item(listed(events, x), events[x.1].seq, bad)),
            bad == (|t: Json| charset_bad(t)),
            sink.check_id() == old(sink).check_id(),
            sink.subject_count() == old(sink).subject_count(),
            entry_seqs(sink.found()) == entry_seqs(old(sink).found()) + xsites(ixs.take(k as int), f),
        decreases exchanges@.len() - k,
    {
        proof { lemma_xsites_take(ixs, f, k as int); }
        let exchange = &exchanges[k];
        assert(*exchange.request == events[ixs[k as int].0]);
        let seq = exchange.response.seq;
        let ghost start = entry_seqs(sink.found());
        match items_in(exchange.result, "tools") {
            Some(tools) => {
                let mut j: usize = 0;
                while j < tools.len()
                    invariant
                        j <= tools@.len(),
                        bad == (|t: Json| charset_bad(t)),
                        sink.check_id() == old(sink).check_id(),
                        sink.subject_count() == old(sink).subject_count(),
                        entry_seqs(sink.found()) == start + per_item(tools@.take(j as int), seq, bad),
                    decreases tools@.len() - j,
                {
                    proof { assert(tools@.take(j + 1).drop_last() =~= tools@.take(j as int)); }
                    let tool = &tools[j];
                    if let Some(n) = tool.get("name") {
                        if let Some(name) = n.as_str() {
                            let offenders = offenders_of(name);
                            assert(tool_name(*tool) == Some(name@));
                            if offenders.len() > 0 {
                                let mut d = owned("tool name ");
                                let q = debug_text(name);
                                push_text(&mut d, q.as_str());
                                push_text(&mut d, " contains characters outside A-Z, a-z, 0-9, underscore, hyphen, and dot: ");
                                let joined = text_of_chars(&offenders);
                                let o = debug_text(joined.as_str());
                                push_text(&mut d, o.as_str());
                                sink.push(Some(seq), d);
                            }
                        }
                    }
                    j = j + 1;
                }
                proof { assert(tools@.take(tools@.len() as int) =~= tools@); }
            },
            None => {
                assert(entry_seqs(sink.found()) =~= start + per_item(Seq::<Json>::empty(), seq, bad));
            },
        }
        k = k + 1;
    }
    proof { lemma_xsites_all(ixs, f); }
}

/// The string names of `tools`, in order.
pub open spec fn names_of(tools: Seq<Json>) -> Seq<Seq<char>>
    decreases tools.len(),
{
    if tools.len() == 0 {
        Seq::empty()
    } else {
        match tool_name(tools.last()) {
            Some(n) => names_of(tools.drop_last()).push(n),
            None => names_of(tools.drop_last()),
        }
    }
}

/// One finding at `seq` per tool whose name an earlier tool of the list
/// already used.
pub open spec fn duplicate_sites(tools: Seq<Json>, seq: u64) -> Seq<Option<u64>>
    decreases tools.len(),
{
    if tools.len() == 0 {
        Seq::empty()
    } else {
        duplicate_sites(tools.drop_last(), seq) + (if tool_name(tools.last()) matches Some(n)
            && names_of(tools.drop_last()).contains(n) { seq![Some(seq)] } else { Seq::empty() })
    }
}

/// `TOOL-008`: tool names should be unique within a server, judged within
/// each `tools/list` result.
pub fn name_unique(context: &TraceContext<'_>, sink: &mut FindingSink)
    ensures
        final(sink).check_id() == old(sink).check_id(),
        final(sink).subject_count() == old(sink).subject_count(),
        entry_seqs(final(sink).found()) == entry_seqs(old(sink).found())
            + xsites(list_ixs(context.trace(), context.pairs()),
                |x: (int, int)| duplicate_sites(listed(context.trace(), x), context.trace()[x.1].seq)),
{
    let exchanges = context.exchanges_for("tools/list");
    let ghost events = context.trace();
    let ghost ixs = list_ixs(context.trace(), context.pairs());
    let ghost f = |x: (int, int)| duplicate_sites(listed(events, x), events[x.1].seq);
    let mut k: usize = 0;
    while k < exchanges.len()
        invariant
            k <= exchanges@.len(),
            exchanges_are(exchanges@, events, ixs),
            f == (|x: (int, int)| duplicate_sites(listed(events, x), events[x.1].seq)),
            sink.check_id() == old(sink).check_id(),
            sink.subject_count() == old(sink).subject_count(),
            entry_seqs(sink.found()) == entry_seqs(old(sink).found()) + xsites(ixs.take(k as int), f),
        decreases exchanges@.len() - k,
    {
        proof { lemma_xsites_take(ixs, f, k as int); }
        let exchange = &exchanges[k];
        assert(*exchange.request == events[ixs[k as int].0]);
        let seq = exchange.response.seq;
        let ghost start = entry_seqs(sink.found());
        match items_in(exchange.result, "tools") {
            Some(tools) => {
                let mut seen: Vec<String> = Vec::new();
                let mut j: usize = 0;
                while j < tools.len()
                    invariant
                        j <= tools@.len(),
                        texts(seen@) == names_of(tools@.take(j as int)),
                        sink.check_id() == old(sink).check_id(),
                        sink.subject_count() == old(sink).subject_count(),
                        entry_seqs(sink.found()) == start + duplicate_sites(tools@.take(j as int), seq),
                    decreases tools@.len() - j,
                {
                    proof { assert(tools@.take(j + 1).drop_last() =~= tools@.take(j as int)); }
                    let tool = &tools[j];
                    if let Some(n) = tool.get("name") {
                        if let Some(name) = n.as_str() {
                            if contains_text(&seen, name) {
                                let mut d = owned("tool name ");
                                let q = debug_text(name);
                                push_text(&mut d, q.as_str());
                                push_text(&mut d, " appears more than once in this tools/list result");
                                sink.push(Some(seq), d);
                            }
                            let ghost before = seen@;
                            seen.push(owned(name));
                            assert(texts(seen@) =~= texts(before).push(name@));
                        }
                    }
                    j = j + 1;
                }
                proof { assert(tools@.take(tools@.len() as int) =~= tools@); }
            },
            None => {
                assert(entry_seqs(sink.found()) =~= start + duplicate_sites(Seq::<Json>::empty(), seq));
            },
        }
        k = k + 1;
    }
    proof { lemma_xsites_all(ixs, f); }
}

/// An exchange the server answered successfully for a `tools/` method.
pub open spec fn served_tools_site(events: Seq<TraceEvent>, x: (int, int)) -> Seq<Option<u64>> {
    let m = events[x.0].payload().unwrap().at("method"@).unwrap().text().unwrap();
    if m.len() >= 6 && m.take(6) == "tools/"@ && x_result(events, x) is Some {
        seq![Some(events[x.1].seq)]
    } else {
        Seq::empty()
    }
}

/// The finding, as (seq, sentence), of an exchange the server answered
/// successfully for a `tools/` method.
pub open spec fn served_tools_entry(events: Seq<TraceEvent>, x: (int, int)) -> Seq<(Option<u64>, Seq<char>)> {
    if served_tools_site(events, x).len() > 0 {
        seq![(Some(events[x.1].seq), "server answered "@
            + crate::text::debug_quoted(events[x.0].payload().unwrap().at("method"@).unwrap().text().unwrap())
            + " without declaring the tools capability"@)]
    } else {
        Seq::empty()
    }
}

/// `TOOL-001`: "Servers that support tools MUST declare the `tools`
/// capability": successfully serving tools traffic is the observable form of
/// supporting tools.
pub fn capability_declared(context: &TraceContext<'_>, sink: &mut FindingSink)
    ensures
        crate::context::life_after(context.trace()).init.result is None
            ==> final(sink).subject_count() == Some(crate::checks::count_or_zero(old(sink).subject_count())),
        final(sink).check_id() == old(sink).check_id(),
        final(sink).subject_count() == after_counting(old(sink).subject_count(),
            if server_declaration(context.trace(), seq!["tools"@]) == Declaration::Unknowable { 0 } else {
                xtally(exchange_ixs(context.trace(), context.pairs(), None, context.trace().len() as nat), |x: (int, int)| served_tools_site(context.trace(), x).len()) as int
            }),
        entry_seqs(final(sink).found()) == entry_seqs(old(sink).found())
            + if server_declaration(context.trace(), seq!["tools"@]) == Declaration::Withheld {
                xsites(exchange_ixs(context.trace(), context.pairs(), None, context.trace().len() as nat),
                    |x: (int, int)| served_tools_site(context.trace(), x))
            } else {
                Seq::empty()
            },
        entry_views(final(sink).found()) == entry_views(old(sink).found())
            + if server_declaration(context.trace(), seq!["tools"@]) == Declaration::Withheld {
                xentries(exchange_ixs(context.trace(), context.pairs(), None, context.trace().len() as nat),
                    |x: (int, int)| served_tools_entry(context.trace(), x))
            } else {
                Seq::empty()
            },
{
    let path: Vec<&str> = vec!["tools"];
    assert(path_view(path@) =~= seq!["tools"@]);
    let declaration = server_capability(context, path.as_slice());
    if declaration == Declaration::Unknowable {
        sink.examined_many(0);
        assert(entry_seqs(sink.found()) =~= entry_seqs(old(sink).found()) + Seq::<Option<u64>>::empty());
        assert(entry_views(sink.found()) =~= entry_views(old(sink).found()) + Seq::<(Option<u64>, Seq<char>)>::empty());
        return;
    }
    let withheld = declaration == Declaration::Withheld;
    sink.examined_many(0);
    assert(entry_seqs(sink.found()) =~= entry_seqs(old(sink).found()) + Seq::<Option<u64>>::empty());
        assert(entry_views(sink.found()) =~= entry_views(old(sink).found()) + Seq::<(Option<u64>, Seq<char>)>::empty());
    let exchanges = context.exchanges();
    let ghost events = context.trace();
    let ghost ixs = exchange_ixs(context.trace(), context.pairs(), None, context.trace().len() as nat);
    let ghost f = |x: (int, int)| served_tools_site(events, x);
    let ghost h = |x: (int, int)| served_tools_entry(events, x);
    let ghost g = |x: (int, int)| served_tools_site(events, x).len();
    let mut k: usize = 0;
    proof { reveal_strlit("tools/"); }
    while k < exchanges.len()
        invariant
            k <= exchanges@.len(),
            exchanges_are(exchanges@, events, ixs),
            f == (|x: (int, int)| served_tools_site(events, x)),
            "tools/"@.len() == 6,
            sink.check_id() == old(sink).check_id(),
            g == (|x: (int, int)| served_tools_site(events, x).len()),
            sink.subject_count() == after_counting(old(sink).subject_count(), xtally(ixs.take(k as int), g) as int),
            withheld == (server_declaration(events, seq!["tools"@]) == Declaration::Withheld),
            entry_seqs(sink.found()) == entry_seqs(old(sink).found())
                + if withheld { xsites(ixs.take(k as int), f) } else { Seq::empty() },
            h == (|x: (int, int)| served_tools_entry(events, x)),
            entry_views(sink.found()) == entry_views(old(sink).found())
                + if withheld { xentries(ixs.take(k as int), h) } else { Seq::empty() },
        decreases exchanges@.len() - k,
    {
        proof { lemma_xsites_take(ixs, f, k as int); lemma_xentries_take(ixs, h, k as int); lemma_xtally_take(ixs, g, k as int); }
        let exchange = &exchanges[k];
        assert(*exchange.request == events[ixs[k as int].0]);
        if starts_with(exchange.method, "tools/") && exchange.result.is_some() {
            sink.examined();
        }
        if withheld && starts_with(exchange.method, "tools/") && exchange.result.is_some() {
            let mut d = owned("server answered ");
            let q = debug_text(exchange.method);
            push_text(&mut d, q.as_str());
            push_text(&mut d, " without declaring the tools capability");
            sink.push(Some(exchange.response.seq), d);
        }
        k = k + 1;
    }
    proof { lemma_xsites_all(ixs, f); lemma_xentries_all(ixs, h); lemma_xtally_all(ixs, g); }
}

/// Whether `item` has a string `type` equal to `t`.
pub open spec fn typed(item: Json, t: Seq<char>) -> bool {
    item.at("type"@) matches Some(v) && v.text() == Some(t)
}

/// Whether some `content` item of a result has `type` equal to `t`.
pub open spec fn has_content_type(result: Json, t: Seq<char>) -> bool {
    exists|i: int| 0 <= i < items_of(Some(result), "content"@).len()
        && typed(#[trigger] items_of(Some(result), "content"@)[i], t)
}

/// Whether some `content` item of `result` has type `t`.
fn content_has_type(result: &Json, t: &str) -> (r: bool)
    ensures
        r == has_content_type(*result, t@),
{
    let items = match items_in(Some(result), "content") {
        Some(items) => items,
        None => { return false; },
    };
    let mut i: usize = 0;
    while i < items.len()
        invariant
            i <= items@.len(),
            items@ == items_of(Some(*result), "content"@),
            forall|k: int| 0 <= k < i ==> !typed(#[trigger] items@[k], t@),
        decreases items@.len() - i,
    {
        if let Some(ty) = items[i].get("type") {
            if let Some(s) = ty.as_str() {
                if text_eq(s, t) {
                    return true;
                }
            }
        }
        i = i + 1;
    }
    false
}

/// The stated `name` of a `tools/call` request's params.
pub open spec fn called_name(params: Option<Json>) -> Option<Seq<char>> {
    match params {
        Some(p) => tool_name(p),
        None => None,
    }
}

/// The stated name of a called tool.
fn called_tool<'a>(params: Option<&'a Json>) -> (r: Option<&'a str>)
    ensures
        match r {
            Some(n) => called_name(crate::message::opt(params)) == Some(n@),
            None => called_name(crate::message::opt(params)) is None,
        },
{
    match params {
        Some(p) => match p.get("name") {
            Some(n) => n.as_str(),
            None => None,
        },
        None => None,
    }
}

/// A tool result that embeds a resource.
pub open spec fn embedded_site(events: Seq<TraceEvent>, x: (int, int)) -> Seq<Option<u64>> {
    if x_result(events, x) matches Some(r) && has_content_type(r, "resource"@) {
        seq![Some(events[x.1].seq)]
    } else {
        Seq::empty()
    }
}

/// The finding, as (seq, sentence), of a tool result that embeds a resource.
pub open spec fn embedded_entry(events: Seq<TraceEvent>, x: (int, int)) -> Seq<(Option<u64>, Seq<char>)> {
    if embedded_site(events, x).len() > 0 {
        seq![(Some(events[x.1].seq), "tool "@ + name_label_text(called_name(x_params(events, x)))
            + " returned an embedded resource, but the server did not declare the resources capability"@)]
    } else {
        Seq::empty()
    }
}

/// `TOOL-009`: servers returning embedded resources in tool results should
/// declare the `resources` capability.
pub fn embedded_resource_capability(context: &TraceContext<'_>, sink: &mut FindingSink)
    ensures
        crate::context::life_after(context.trace()).init.result is None
            ==> final(sink).subject_count() == Some(crate::checks::count_or_zero(old(sink).subject_count())),
        final(sink).check_id() == old(sink).check_id(),
        final(sink).subject_count() == after_counting(old(sink).subject_count(),
            if server_declaration(context.trace(), seq!["resources"@]) == Declaration::Unknowable { 0 } else {
                xtally(call_ixs(context.trace(), context.pairs()), |x: (int, int)| embedded_site(context.trace(), x).len()) as int
            }),
        entry_seqs(final(sink).found()) == entry_seqs(old(sink).found())
            + if server_declaration(context.trace(), seq!["resources"@]) == Declaration::Withheld {
                xsites(call_ixs(context.trace(), context.pairs()), |x: (int, int)| embedded_site(context.trace(), x))
            } else {
                Seq::empty()
            },
        entry_views(final(sink).found()) == entry_views(old(sink).found())
            + if server_declaration(context.trace(), seq!["resources"@]) == Declaration::Withheld {
                xentries(call_ixs(context.trace(), context.pairs()), |x: (int, int)| embedded_entry(context.trace(), x))
            } else {
                Seq::empty()
            },
{
    let path: Vec<&str> = vec!["resources"];
    assert(path_view(path@) =~= seq!["resources"@]);
    let declaration = server_capability(context, path.as_slice());
    if declaration == Declaration::Unknowable {
        sink.examined_many(0);
        assert(entry_seqs(sink.found()) =~= entry_seqs(old(sink).found()) + Seq::<Option<u64>>::empty());
    assert(entry_views(sink.found()) =~= entry_views(old(sink).found()) + Seq::<(Option<u64>, Seq<char>)>::empty());
    assert(entry_views(sink.found()) =~= entry_views(old(sink).found()) + Seq::<(Option<u64>, Seq<char>)>::empty());
        return;
    }
    let withheld = declaration == Declaration::Withheld;
    sink.examined_many(0);
    assert(entry_seqs(sink.found()) =~= entry_seqs(old(sink).found()) + Seq::<Option<u64>>::empty());
    let exchanges = context.exchanges_for("tools/call");
    let ghost events = context.trace();
    let ghost ixs = call_ixs(context.trace(), context.pairs());
    let ghost f = |x: (int, int)| embedded_site(events, x);
    let ghost h = |x: (int, int)| embedded_entry(events, x);
    let ghost g = |x: (int, int)| embedded_site(events, x).len();
    let mut k: usize = 0;
    while k < exchanges.len()
        invariant
            k <= exchanges@.len(),
            exchanges_are(exchanges@, events, ixs),
            f == (|x: (int, int)| embedded_site(events, x)),
            sink.check_id() == old(sink).check_id(),
            g == (|x: (int, int)| embedded_site(events, x).len()),
            sink.subject_count() == after_counting(old(sink).subject_count(), xtally(ixs.take(k as int), g) as int),
            withheld == (server_declaration(events, seq!["resources"@]) == Declaration::Withheld),
            entry_seqs(sink.found()) == entry_seqs(old(sink).found())
                + if withheld { xsites(ixs.take(k as int), f) } else { Seq::empty() },
            h == (|x: (int, int)| embedded_entry(events, x)),
            entry_views(sink.found()) == entry_views(old(sink).found())
                + if withheld { xentries(ixs.take(k as int), h) } else { Seq::empty() },
        decreases exchanges@.len() - k,
    {
        proof { lemma_xsites_take(ixs, f, k as int); lemma_xentries_take(ixs, h, k as int); lemma_xtally_take(ixs, g, k as int); }
        let exchange = &exchanges[k];
        assert(*exchange.request == events[ixs[k as int].0]);
        if let Some(result) = exchange.result {
            if content_has_type(result, "resource") {
                sink.examined();
            }
            if withheld && content_has_type(result, "resource") {
                let mut d = owned("tool ");
                let l = name_label(called_tool(exchange.params));
                push_text(&mut d, l.as_str());
                push_text(&mut d, " returned an embedded resource, but the server did not declare the resources capability");
                sink.push(Some(exchange.response.seq), d);
            }
        }
        k = k + 1;
    }
    proof { lemma_xsites_all(ixs, f); lemma_xentries_all(ixs, h); lemma_xtally_all(ixs, g); }
}

/// A tool result with `structuredContent` and no text content block.
pub open spec fn fallback_site(events: Seq<TraceEvent>, x: (int, int)) -> Seq<Option<u64>> {
    if x_result(events, x) matches Some(r) && r.at("structuredContent"@) is Some && !has_content_type(r, "text"@) {
        seq![Some(events[x.1].seq)]
    } else {
        Seq::empty()
    }
}

/// The finding, as (seq, sentence), of a tool result with
/// `structuredContent` and no text content block.
pub open spec fn fallback_entry(events: Seq<TraceEvent>, x: (int, int)) -> Seq<(Option<u64>, Seq<char>)> {
    if fallback_site(events, x).len() > 0 {
        seq![(Some(events[x.1].seq), "tool "@ + name_label_text(called_name(x_params(events, x)))
            + " returned structuredContent without a TextContent fallback block"@)]
    } else {
        Seq::empty()
    }
}

/// `TOOL-010`: a result carrying `structuredContent` should also carry the
/// serialized JSON in a `TextContent` block.
pub fn structured_content_text(context: &TraceContext<'_>, sink: &mut FindingSink)
    ensures
        final(sink).check_id() == old(sink).check_id(),
        final(sink).subject_count() == old(sink).subject_count(),
        entry_seqs(final(sink).found()) == entry_seqs(old(sink).found())
            + xsites(call_ixs(context.trace(), context.pairs()), |x: (int, int)| fallback_site(context.trace(), x)),
        entry_views(final(sink).found()) == entry_views(old(sink).found())
            + xentries(call_ixs(context.trace(), context.pairs()), |x: (int, int)| fallback_entry(context.trace(), x)),
{
    let exchanges = context.exchanges_for("tools/call");
    let ghost events = context.trace();
    let ghost ixs = call_ixs(context.trace(), context.pairs());
    let ghost f = |x: (int, int)| fallback_site(events, x);
    let ghost h = |x: (int, int)| fallback_entry(events, x);
    let mut k: usize = 0;
    while k < exchanges.len()
        invariant
            k <= exchanges@.len(),
            exchanges_are(exchanges@, events, ixs),
            f == (|x: (int, int)| fallback_site(events, x)),
            sink.check_id() == old(sink).check_id(),
            sink.subject_count() == old(sink).subject_count(),
            entry_seqs(sink.found()) == entry_seqs(old(sink).found()) + xsites(ixs.take(k as int), f),
            h == (|x: (int, int)| fallback_entry(events, x)),
            entry_views(sink.found()) == entry_views(old(sink).found()) + xentries(ixs.take(k as int), h),
        decreases exchanges@.len() - k,
    {
        proof { lemma_xsites_take(ixs, f, k as int); lemma_xentries_take(ixs, h, k as int); }
        let exchange = &exchanges[k];
        assert(*exchange.request == events[ixs[k as int].0]);
        if let Some(result) = exchange.result {
            if result.get("structuredContent").is_some() && !content_has_type(result, "text") {
                let mut d = owned("tool ");
                let l = name_label(called_tool(exchange.params));
                push_text(&mut d, l.as_str());
                push_text(&mut d, " returned structuredContent without a TextContent fallback block");
                sink.push(Some(exchange.response.seq), d);
            }
        }
        k = k + 1;
    }
    proof { lemma_xsites_all(ixs, f); lemma_xentries_all(ixs, h); }
}

/// The names of listed tools that declare an `outputSchema` object.
pub open spec fn schema_tools(tools: Seq<Json>) -> Seq<Seq<char>>
    decreases tools.len(),
{
    if tools.len() == 0 {
        Seq::empty()
    } else {
        let prev = schema_tools(tools.drop_last());
        let t = tools.last();
        if (t.at("outputSchema"@) matches Some(s) && s is Object) && tool_name(t) is Some {
            prev.push(tool_name(t).unwrap())
        } else {
            prev
        }
    }
}

/// Those names across every `tools/list` result at `ixs`.
pub open spec fn schema_tool_names(events: Seq<TraceEvent>, ixs: Seq<(int, int)>) -> Seq<Seq<char>>
    decreases ixs.len(),
{
    if ixs.len() == 0 {
        Seq::empty()
    } else {
        schema_tool_names(events, ixs.drop_last()) + schema_tools(listed(events, ixs.last()))
    }
}

/// A call to a tool with an `outputSchema` whose successful, non-`isError`
/// result carries no `structuredContent` object.
pub open spec fn unstructured_site(events: Seq<TraceEvent>, names: Seq<Seq<char>>, x: (int, int)) -> Seq<Option<u64>> {
    if x_result(events, x) matches Some(r) && (called_name(x_params(events, x)) matches Some(n) && names.contains(n))
        && r.at("isError"@) != Some(Json::Bool(true))
        && !(r.at("structuredContent"@) matches Some(s) && s is Object) {
        seq![Some(events[x.1].seq)]
    } else {
        Seq::empty()
    }
}

/// `TOOL-011`: when a tool declared an `outputSchema` in `tools/list`, its
/// successful, non-`isError` call results must provide `structuredContent`.
pub fn output_schema_structured_result(context: &TraceContext<'_>, sink: &mut FindingSink)
    ensures
        final(sink).check_id() == old(sink).check_id(),
        final(sink).subject_count() == old(sink).subject_count(),
        entry_seqs(final(sink).found()) == entry_seqs(old(sink).found())
            + xsites(call_ixs(context.trace(), context.pairs()), |x: (int, int)| unstructured_site(context.trace(),
                schema_tool_names(context.trace(), list_ixs(context.trace(), context.pairs())), x)),
{
    let lists = context.exchanges_for("tools/list");
    let ghost events = context.trace();
    let ghost lixs = list_ixs(context.trace(), context.pairs());
    let mut names: Vec<String> = Vec::new();
    let mut k: usize = 0;
    while k < lists.len()
        invariant
            k <= lists@.len(),
            exchanges_are(lists@, events, lixs),
            texts(names@) == schema_tool_names(events, lixs.take(k as int)),
        decreases lists@.len() - k,
    {
        proof { assert(lixs.take(k + 1).drop_last() =~= lixs.take(k as int)); }
        let exchange = &lists[k];
        assert(*exchange.request == events[lixs[k as int].0]);
        let ghost start = texts(names@);
        if let Some(tools) = items_in(exchange.result, "tools") {
            let mut j: usize = 0;
            while j < tools.len()
                invariant
                    j <= tools@.len(),
                    texts(names@) == start + schema_tools(tools@.take(j as int)),
                decreases tools@.len() - j,
            {
                proof { assert(tools@.take(j + 1).drop_last() =~= tools@.take(j as int)); }
                let tool = &tools[j];
                let has_schema = match tool.get("outputSchema") {
                    Some(s) => s.is_object(),
                    None => false,
                };
                if has_schema {
                    if let Some(n) = tool.get("name") {
                        if let Some(name) = n.as_str() {
                            let ghost before = names@;
                            names.push(owned(name));
                            assert(texts(names@) =~= texts(before).push(name@));
                        }
                    }
                }
                j = j + 1;
            }
            proof { assert(tools@.take(tools@.len() as int) =~= tools@); }
        } else {
            assert(texts(names@) =~= start + schema_tools(Seq::<Json>::empty()));
        }
        k = k + 1;
    }
    proof { assert(lixs.take(lixs.len() as int) =~= lixs); }
    let ghost sn = texts(names@);
    let exchanges = context.exchanges_for("tools/call");
    let ghost ixs = call_ixs(context.trace(), context.pairs());
    let ghost f = |x: (int, int)| unstructured_site(events, sn, x);
    let mut k: usize = 0;
    while k < exchanges.len()
        invariant
            k <= exchanges@.len(),
            exchanges_are(exchanges@, events, ixs),
            sn == texts(names@),
            f == (|x: (int, int)| unstructured_site(events, sn, x)),
            sink.check_id() == old(sink).check_id(),
            sink.subject_count() == old(sink).subject_count(),
            entry_seqs(sink.found()) == entry_seqs(old(sink).found()) + xsites(ixs.take(k as int), f),
        decreases exchanges@.len() - k,
    {
        proof { lemma_xsites_take(ixs, f, k as int); }
        let exchange = &exchanges[k];
        assert(*exchange.request == events[ixs[k as int].0]);
        if let Some(result) = exchange.result {
            if let Some(name) = called_tool(exchange.params) {
                let is_error = match result.get("isError") {
                    Some(Json::Bool(b)) => *b,
                    _ => false,
                };
                let structured = match result.get("structuredContent") {
                    Some(s) => s.is_object(),
                    None => false,
                };
                if contains_text(&names, name) && !is_error && !structured {
                    let mut d = owned("tool ");
                    let q = debug_text(name);
                    push_text(&mut d, q.as_str());
                    push_text(&mut d, " declares an outputSchema but this result carries no structuredContent object");
                    sink.push(Some(exchange.response.seq), d);
                }
            }
        }
        k = k + 1;
    }
    proof { lemma_xsites_all(ixs, f); }
}

} // verus!
