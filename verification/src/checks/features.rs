//! The three feature-page clauses this revision added: deterministic tool
//! ordering, the safe integer range for a header-mirrored argument, and the
//! empty `contents` array.

use vstd::prelude::*;
use crate::checks::after_counting;
use crate::checks::sites::{entries, lemma_entries_take, lemma_entries_all, tally, xtally, lemma_tally_take, lemma_xtally_take, lemma_tally_all, lemma_xtally_all};
use crate::checks::{FindingSink, entry_seqs};
use crate::checks::sites::{sites, lemma_sites_take, lemma_sites_all, xsites, lemma_xsites_take, lemma_xsites_all};
use crate::checks::caching::x_result;
use crate::checks::designation::{DesignationView, Designation, designation_views, designations_by_tool,
    lookup_designations, trace_designations, designated_for, tool_views};
use crate::context::{TraceContext, exchange_ixs, exchanges_are};
use crate::json::Json;
use crate::text::{owned, push_text, text_eq, contains_text, texts, i64_text, u64_text};
use crate::trace::{Direction, TraceEvent};

verus! {

/// The names of the tools a `tools/list` result lists, skipping unnamed ones;
/// `None` when the result carries no `tools` array.
pub open spec fn listed_names(result: Option<Json>) -> Option<Seq<Seq<char>>> {
    match result {
        Some(r) => match r.at("tools"@) {
            Some(Json::Array(tools)) => Some(names_in(tools@)),
            _ => None,
        },
        None => None,
    }
}

/// The string `name`s of a list of tools, in order.
pub open spec fn names_in(tools: Seq<Json>) -> Seq<Seq<char>>
    decreases tools.len(),
{
    if tools.len() == 0 {
        Seq::empty()
    } else {
        match tools.last().at("name"@) {
            Some(n) => match n.text() {
                Some(t) => names_in(tools.drop_last()).push(t),
                None => names_in(tools.drop_last()),
            },
            None => names_in(tools.drop_last()),
        }
    }
}

/// Whether two lists hold the same set of names.
pub open spec fn same_set(a: Seq<Seq<char>>, b: Seq<Seq<char>>) -> bool {
    forall|x: Seq<char>| a.contains(x) <==> b.contains(x)
}

/// The ordering walk: the first listing seen, and the findings so far.
pub open spec fn order_walk(events: Seq<TraceEvent>, ixs: Seq<(int, int)>) -> (Option<(u64, Seq<Seq<char>>)>, Seq<Option<u64>>)
    decreases ixs.len(),
{
    if ixs.len() == 0 {
        (None, Seq::empty())
    } else {
        let (seen, found) = order_walk(events, ixs.drop_last());
        let j = ixs.last().1;
        match listed_names(x_result(events, j)) {
            None => (seen, found),
            Some(names) => match seen {
                None => (Some((events[j].seq, names)), found),
                Some((_, first)) => if same_set(first, names) && first != names {
                    (seen, found.push(Some(events[j].seq)))
                } else {
                    (seen, found)
                },
            },
        }
    }
}

/// The subjects of the order walk: the listings, after the first, of the same
/// set of tools.
pub open spec fn order_subjects(events: Seq<TraceEvent>, ixs: Seq<(int, int)>) -> nat
    decreases ixs.len(),
{
    if ixs.len() == 0 {
        0
    } else {
        let seen = order_walk(events, ixs.drop_last()).0;
        order_subjects(events, ixs.drop_last()) + if listed_names(x_result(events, ixs.last().1)) matches Some(names)
            && seen matches Some((_, first)) && same_set(first, names) { 1nat } else { 0nat }
    }
}

/// The sentence of an order finding, naming the earlier listing's seq.
pub open spec fn order_detail(first_seq: u64) -> Seq<char> {
    "`tools/list` returned the same tools in a different order than the result at seq "@
        + crate::text::decimal(first_seq as nat) + ", though the set did not change"@
}

/// The order walk's findings as (seq, sentence).
pub open spec fn order_entries(events: Seq<TraceEvent>, ixs: Seq<(int, int)>) -> Seq<(Option<u64>, Seq<char>)>
    decreases ixs.len(),
{
    if ixs.len() == 0 {
        Seq::empty()
    } else {
        let seen = order_walk(events, ixs.drop_last()).0;
        let j = ixs.last().1;
        order_entries(events, ixs.drop_last()) + match listed_names(x_result(events, j)) {
            Some(names) => match seen {
                Some((first_seq, first)) => if same_set(first, names) && first != names {
                    seq![(Some(events[j].seq), order_detail(first_seq))]
                } else {
                    Seq::empty()
                },
                None => Seq::empty(),
            },
            None => Seq::empty(),
        }
    }
}

fn tool_names(tools: &Vec<Json>) -> (r: Vec<String>)
    ensures
        texts(r@) == names_in(tools@),
{
    let mut out: Vec<String> = Vec::new();
    let mut i: usize = 0;
    while i < tools.len()
        invariant
            i <= tools@.len(),
            texts(out@) == names_in(tools@.take(i as int)),
        decreases tools@.len() - i,
    {
        proof { assert(tools@.take(i + 1).drop_last() =~= tools@.take(i as int)); }
        let name = match tools[i].get("name") {
            Some(n) => n.as_str(),
            None => None,
        };
        if let Some(name) = name {
            let ghost before = out@;
            let t = owned(name);
            out.push(t);
            assert(texts(out@) =~= texts(before).push(name@));
        }
        i = i + 1;
    }
    assert(tools@.take(tools@.len() as int) =~= tools@);
    out
}

fn contains_all(a: &Vec<String>, b: &Vec<String>) -> (r: bool)
    ensures
        r == (forall|x: Seq<char>| texts(a@).contains(x) ==> texts(b@).contains(x)),
{
    let mut i: usize = 0;
    while i < a.len()
        invariant
            i <= a@.len(),
            forall|j: int| 0 <= j < i ==> texts(b@).contains(#[trigger] texts(a@)[j]),
        decreases a@.len() - i,
    {
        if !contains_text(b, a[i].as_str()) {
            assert(texts(a@)[i as int] == a@[i as int]@);
            assert(texts(a@).contains(a@[i as int]@));
            return false;
        }
        assert(texts(a@)[i as int] == a@[i as int]@);
        i = i + 1;
    }
    true
}

fn same_names(a: &Vec<String>, b: &Vec<String>) -> (r: bool)
    ensures
        r == (texts(a@) == texts(b@)),
{
    if a.len() != b.len() {
        assert(texts(a@).len() != texts(b@).len());
        return false;
    }
    let mut i: usize = 0;
    while i < a.len()
        invariant
            i <= a@.len(),
            a@.len() == b@.len(),
            forall|j: int| 0 <= j < i ==> a@[j]@ == b@[j]@,
        decreases a@.len() - i,
    {
        if !text_eq(a[i].as_str(), b[i].as_str()) {
            assert(texts(a@)[i as int] != texts(b@)[i as int]);
            return false;
        }
        i = i + 1;
    }
    assert(texts(a@) =~= texts(b@));
    true
}

/// `TOOL-022`: `tools/list` returns tools in a deterministic order: two
/// results whose tool sets are equal list them in the same order. Where the
/// set changed the clause says nothing.
pub fn deterministic_order(context: &TraceContext<'_>, sink: &mut FindingSink)
    ensures
        final(sink).check_id() == old(sink).check_id(),
        entry_seqs(final(sink).found()) == entry_seqs(old(sink).found()) + order_walk(context.trace(),
            exchange_ixs(context.trace(), context.pairs(), Some("tools/list"@), context.trace().len() as nat)).1,
        final(sink).subject_count() == crate::checks::after_counting(old(sink).subject_count(), order_subjects(context.trace(),
            exchange_ixs(context.trace(), context.pairs(), Some("tools/list"@), context.trace().len() as nat)) as int),
        crate::checks::entry_views(final(sink).found()) == crate::checks::entry_views(old(sink).found()) + order_entries(context.trace(),
            exchange_ixs(context.trace(), context.pairs(), Some("tools/list"@), context.trace().len() as nat)),
{
    sink.examined_many(0);
    let exchanges = context.exchanges_for("tools/list");
    let ghost events = context.trace();
    let ghost ixs = exchange_ixs(context.trace(), context.pairs(), Some("tools/list"@), context.trace().len() as nat);
    let mut seen: Option<(u64, Vec<String>)> = None;
    let mut k: usize = 0;
    while k < exchanges.len()
        invariant
            k <= exchanges@.len(),
            exchanges_are(exchanges@, events, ixs),
            match seen {
                Some((s, v)) => order_walk(events, ixs.take(k as int)).0 == Some((s, texts(v@))),
                None => order_walk(events, ixs.take(k as int)).0 is None,
            },
            sink.check_id() == old(sink).check_id(),
            entry_seqs(sink.found()) == entry_seqs(old(sink).found()) + order_walk(events, ixs.take(k as int)).1,
            sink.subject_count() == crate::checks::after_counting(old(sink).subject_count(), order_subjects(events, ixs.take(k as int)) as int),
            crate::checks::entry_views(sink.found()) == crate::checks::entry_views(old(sink).found()) + order_entries(events, ixs.take(k as int)),
        decreases exchanges@.len() - k,
    {
        proof { assert(ixs.take(k + 1).drop_last() =~= ixs.take(k as int)); }
        let exchange = &exchanges[k];
        assert(*exchange.request == events[ixs[k as int].0]);
        let tools = match exchange.result {
            Some(r) => match r.get("tools") {
                Some(Json::Array(t)) => Some(t),
                _ => None,
            },
            None => None,
        };
        if let Some(tools) = tools {
            let names = tool_names(tools);
            match &seen {
                Some((first_seq, first)) => {
                    if contains_all(first, &names) && contains_all(&names, first) && !same_names(first, &names) {
                        sink.examined();
                        let mut d = owned("`tools/list` returned the same tools in a different order than the result at seq ");
                        let t = u64_text(*first_seq);
                        push_text(&mut d, t.as_str());
                        push_text(&mut d, ", though the set did not change");
                        proof { assert(d@ =~= order_detail(*first_seq)); }
                        sink.push(Some(exchange.response.seq), d);
                    } else if contains_all(first, &names) && contains_all(&names, first) {
                        sink.examined();
                    }
                },
                None => {
                    seen = Some((exchange.response.seq, names));
                },
            }
        }
        k = k + 1;
    }
    proof { assert(ixs.take(ixs.len() as int) =~= ixs); }
}

/// The largest integer IEEE 754 double precision represents exactly.
pub open spec fn safe_integer() -> int {
    9007199254740991
}

/// The value at a chain of member names beneath `v`.
pub open spec fn value_at(v: Option<Json>, path: Seq<Seq<char>>) -> Option<Json>
    decreases path.len(),
{
    if path.len() == 0 {
        v
    } else {
        match v {
            Some(j) => value_at(j.at(path[0]), path.drop_first()),
            None => None,
        }
    }
}

/// One finding per designated argument of a `tools/call` whose integer value
/// lies outside the safe range.
pub open spec fn range_sites(arguments: Option<Json>, ds: Seq<DesignationView>, seq: u64) -> Seq<Option<u64>>
    decreases ds.len(),
{
    if ds.len() == 0 {
        Seq::empty()
    } else {
        range_sites(arguments, ds.drop_last(), seq)
            + if value_at(arguments, ds.last().path) matches Some(v) && v.int_value() matches Some(n)
                && !(-safe_integer() <= n && n <= safe_integer()) {
                seq![Some(seq)]
            } else {
                Seq::empty()
            }
    }
}

/// The designated paths whose argument is an integer.
pub open spec fn range_subjects(arguments: Option<Json>, ds: Seq<DesignationView>) -> nat
    decreases ds.len(),
{
    if ds.len() == 0 {
        0
    } else {
        range_subjects(arguments, ds.drop_last())
            + if value_at(arguments, ds.last().path) matches Some(v) && v.int_value() is Some { 1nat } else { 0nat }
    }
}

/// The subjects of a client `tools/call`: its designated integer arguments.
pub open spec fn range_subject(events: Seq<TraceEvent>, e: TraceEvent) -> nat {
    if e.direction == Direction::ClientToServer && e.payload() is Some
        && (e.payload().unwrap().at("method"@) matches Some(m) && m.text() == Some("tools/call"@)) {
        match e.payload().unwrap().at("params"@) {
            Some(params) => match params.at("name"@) {
                Some(n) => match n.text() {
                    Some(name) => match designated_for(trace_designations(events), name) {
                        Some(ds) => range_subjects(params.at("arguments"@), ds),
                        None => 0,
                    },
                    None => 0,
                },
                None => 0,
            },
            None => 0,
        }
    } else {
        0
    }
}

/// The findings, as (seq, sentence), of the designated integer arguments
/// outside the safe range.
pub open spec fn range_entries(arguments: Option<Json>, ds: Seq<DesignationView>, seq: u64) -> Seq<(Option<u64>, Seq<char>)>
    decreases ds.len(),
{
    if ds.len() == 0 {
        Seq::empty()
    } else {
        range_entries(arguments, ds.drop_last(), seq)
            + if value_at(arguments, ds.last().path) matches Some(v) && v.int_value() matches Some(n)
                && !(-safe_integer() <= n && n <= safe_integer()) {
                seq![(Some(seq), "the argument mirrored into `"@ + ds.last().name + "` is "@
                    + crate::text::signed_decimal(value_at(arguments, ds.last().path).unwrap().int_value().unwrap())
                    + ", outside the IEEE 754 safe integer range"@)]
            } else {
                Seq::empty()
            }
    }
}

/// The range findings of a client `tools/call`, as (seq, sentence).
pub open spec fn range_entry(events: Seq<TraceEvent>, e: TraceEvent) -> Seq<(Option<u64>, Seq<char>)> {
    if e.direction == Direction::ClientToServer && e.payload() is Some
        && (e.payload().unwrap().at("method"@) matches Some(m) && m.text() == Some("tools/call"@)) {
        match e.payload().unwrap().at("params"@) {
            Some(params) => match params.at("name"@) {
                Some(n) => match n.text() {
                    Some(name) => match designated_for(trace_designations(events), name) {
                        Some(ds) => range_entries(params.at("arguments"@), ds, e.seq),
                        None => Seq::empty(),
                    },
                    None => Seq::empty(),
                },
                None => Seq::empty(),
            },
            None => Seq::empty(),
        }
    } else {
        Seq::empty()
    }
}

/// The range findings of a client `tools/call`.
pub open spec fn range_site(events: Seq<TraceEvent>, e: TraceEvent) -> Seq<Option<u64>> {
    if e.direction == Direction::ClientToServer && e.payload() is Some
        && (e.payload().unwrap().at("method"@) matches Some(m) && m.text() == Some("tools/call"@)) {
        match e.payload().unwrap().at("params"@) {
            Some(params) => match params.at("name"@) {
                Some(n) => match n.text() {
                    Some(name) => match designated_for(trace_designations(events), name) {
                        Some(ds) => range_sites(params.at("arguments"@), ds, e.seq),
                        None => Seq::empty(),
                    },
                    None => Seq::empty(),
                },
                None => Seq::empty(),
            },
            None => Seq::empty(),
        }
    } else {
        Seq::empty()
    }
}

pub fn walk_path<'a>(v: Option<&'a Json>, path: &Vec<String>) -> (r: Option<&'a Json>)
    ensures
        match r {
            Some(j) => value_at(match v { Some(x) => Some(*x), None => None }, texts(path@)) == Some(*j),
            None => value_at(match v { Some(x) => Some(*x), None => None }, texts(path@)) is None,
        },
{
    let ghost full = texts(path@);
    let mut cur = v;
    let mut i: usize = 0;
    assert(full.skip(0) =~= full);
    while i < path.len()
        invariant
            i <= path@.len(),
            full == texts(path@),
            value_at(match v { Some(x) => Some(*x), None => None }, full)
                == value_at(match cur { Some(x) => Some(*x), None => None }, full.skip(i as int)),
        decreases path@.len() - i,
    {
        let ghost rest = full.skip(i as int);
        assert(rest[0] == path@[i as int]@);
        assert(rest.drop_first() =~= full.skip(i + 1));
        cur = match cur {
            Some(j) => j.get(path[i].as_str()),
            None => None,
        };
        i = i + 1;
    }
    assert(full.skip(path@.len() as int) =~= Seq::<Seq<char>>::empty());
    cur
}

/// `TOOL-034`: a header-mirrored integer stays inside the IEEE 754 safe
/// range. Scoped to arguments at an annotated path, judged on the requests.
pub fn x_mcp_header_integer_range(context: &TraceContext<'_>, sink: &mut FindingSink)
    ensures
        final(sink).check_id() == old(sink).check_id(),
        final(sink).subject_count() == after_counting(old(sink).subject_count(),
            tally(context.trace(), |e: TraceEvent| range_subject(context.trace(), e)) as int),
        entry_seqs(final(sink).found()) == entry_seqs(old(sink).found())
            + sites(context.trace(), |e: TraceEvent| range_site(context.trace(), e)),
        crate::checks::entry_views(final(sink).found()) == crate::checks::entry_views(old(sink).found())
            + entries(context.trace(), |e: TraceEvent| range_entry(context.trace(), e)),
{
    sink.examined_many(0);
    let ghost events = context.trace();
    let ghost f = |e: TraceEvent| range_site(events, e);
    let designated = designations_by_tool(context);
    let n = context.len();
    let ghost g = |e: TraceEvent| range_subject(events, e);
    let ghost h = |e: TraceEvent| range_entry(events, e);
    let mut i: usize = 0;
    proof { reveal_strlit("tools/call"); }
    while i < n
        invariant
            n == events.len(),
            events == context.trace(),
            tool_views(designated@) == trace_designations(events),
            crate::checks::designation::tool_headers_agree(designated@),
            i <= n,
            f == (|e: TraceEvent| range_site(events, e)),
            sink.check_id() == old(sink).check_id(),
            g == (|e: TraceEvent| range_subject(events, e)),
            sink.subject_count() == after_counting(old(sink).subject_count(), tally(events.take(i as int), g) as int),
            entry_seqs(sink.found()) == entry_seqs(old(sink).found()) + sites(events.take(i as int), f),
            h == (|e: TraceEvent| range_entry(events, e)),
            crate::checks::entry_views(sink.found()) == crate::checks::entry_views(old(sink).found()) + entries(events.take(i as int), h),
        decreases n - i,
    {
        proof { lemma_sites_take(events, f, i as int); lemma_tally_take(events, g, i as int); lemma_entries_take(events, h, i as int); }
        let event = context.event(i);
        let ghost before = entry_seqs(sink.found());
        let ghost views = crate::checks::entry_views(sink.found());
        if event.direction == Direction::ClientToServer {
            if let Some(p) = event.message_payload() {
                let call = match p.get("method") {
                    Some(m) => match m.as_str() {
                        Some(s) => text_eq(s, "tools/call"),
                        None => false,
                    },
                    None => false,
                };
                if call {
                    if let Some(params) = p.get("params") {
                        let name = match params.get("name") {
                            Some(v) => v.as_str(),
                            None => None,
                        };
                        if let Some(name) = name {
                            if let Some(paths) = lookup_designations(&designated, name) {
                                let arguments = params.get("arguments");
                                let ghost args = match arguments { Some(x) => Some(*x), None => None };
                                let ghost ds = designation_views(paths@);
                                let ghost counted = tally(events.take(i as int), g);
                                let mut q: usize = 0;
                                while q < paths.len()
                                    invariant
                                        q <= paths@.len(),
                                        ds == designation_views(paths@),
                                        args == match arguments { Some(x) => Some(*x), None => None },
                                        sink.check_id() == old(sink).check_id(),
                                        entry_seqs(sink.found()) == before + range_sites(args, ds.take(q as int), event.seq),
                                        sink.subject_count() == after_counting(old(sink).subject_count(),
                                            (counted + range_subjects(args, ds.take(q as int))) as int),
                                        crate::checks::entry_views(sink.found()) == views + range_entries(args, ds.take(q as int), event.seq),
                                    decreases paths@.len() - q,
                                {
                                    proof { assert(ds.take(q + 1).drop_last() =~= ds.take(q as int)); }
                                    let value = walk_path(arguments, &paths[q].path);
                                    let integer = match value {
                                        Some(v) => v.as_i64(),
                                        None => None,
                                    };
                                    if let Some(integer) = integer {
                                        sink.examined();
                                        if !(-9007199254740991i64 <= integer && integer <= 9007199254740991i64) {
                                            let mut d = owned("the argument mirrored into `");
                                            push_text(&mut d, paths[q].name.as_str());
                                            push_text(&mut d, "` is ");
                                            let t = i64_text(integer);
                                            push_text(&mut d, t.as_str());
                                            push_text(&mut d, ", outside the IEEE 754 safe integer range");
                                            proof {
                                                assert(d@ =~= "the argument mirrored into `"@ + ds[q as int].name + "` is "@
                                                    + crate::text::signed_decimal(integer as int) + ", outside the IEEE 754 safe integer range"@);
                                            }
                                            sink.push(Some(event.seq), d);
                                        }
                                    }
                                    q = q + 1;
                                }
                                assert(ds.take(ds.len() as int) =~= ds);
                            }
                        }
                    }
                }
            }
        }
        assert(entry_seqs(sink.found()) =~= before + f(*event));
        assert(crate::checks::entry_views(sink.found()) =~= views + h(*event));
        i = i + 1;
    }
    proof { lemma_sites_all(events, f); lemma_tally_all(events, g); lemma_entries_all(events, h); }
}

/// A `resources/read` answered with an empty `contents` array.
pub open spec fn empty_contents_site(events: Seq<TraceEvent>, x: (int, int)) -> Seq<Option<u64>> {
    match x_result(events, x.1) {
        Some(r) => match r.at("contents"@) {
            Some(Json::Array(c)) => if c@.len() == 0 { seq![Some(events[x.1].seq)] } else { Seq::empty() },
            _ => Seq::empty(),
        },
        None => Seq::empty(),
    }
}

/// One subject per `resources/read` answered with a `contents` array.
pub open spec fn contents_subject(events: Seq<TraceEvent>, x: (int, int)) -> nat {
    match x_result(events, x.1) {
        Some(r) => match r.at("contents"@) {
            Some(Json::Array(c)) => 1,
            _ => 0,
        },
        None => 0,
    }
}

/// `RES-022`: `resources/read` never answers with an empty `contents` array,
/// which is ambiguous between an empty resource and a missing one.
pub fn read_contents_non_empty(context: &TraceContext<'_>, sink: &mut FindingSink)
    ensures
        final(sink).check_id() == old(sink).check_id(),
        crate::checks::extends_with(old(sink).found(), final(sink).found(), "`resources/read` answered with an empty `contents` array, which is ambiguous between an empty resource and a missing one"@),
        final(sink).subject_count() == after_counting(old(sink).subject_count(),
            xtally(exchange_ixs(context.trace(), context.pairs(), Some("resources/read"@), context.trace().len() as nat), |x: (int, int)| contents_subject(context.trace(), x)) as int),
        entry_seqs(final(sink).found()) == entry_seqs(old(sink).found()) + xsites(
            exchange_ixs(context.trace(), context.pairs(), Some("resources/read"@), context.trace().len() as nat),
            |x: (int, int)| empty_contents_site(context.trace(), x)),
{
    sink.examined_many(0);
    let exchanges = context.exchanges_for("resources/read");
    let ghost events = context.trace();
    let ghost ixs = exchange_ixs(context.trace(), context.pairs(), Some("resources/read"@), context.trace().len() as nat);
    let ghost f = |x: (int, int)| empty_contents_site(events, x);
    let ghost g = |x: (int, int)| contents_subject(events, x);
    let mut k: usize = 0;
    while k < exchanges.len()
        invariant
            k <= exchanges@.len(),
            exchanges_are(exchanges@, events, ixs),
            f == (|x: (int, int)| empty_contents_site(events, x)),
            sink.check_id() == old(sink).check_id(),
            crate::checks::extends_with(old(sink).found(), sink.found(), "`resources/read` answered with an empty `contents` array, which is ambiguous between an empty resource and a missing one"@),
            g == (|x: (int, int)| contents_subject(events, x)),
            sink.subject_count() == after_counting(old(sink).subject_count(), xtally(ixs.take(k as int), g) as int),
            entry_seqs(sink.found()) == entry_seqs(old(sink).found()) + xsites(ixs.take(k as int), f),
        decreases exchanges@.len() - k,
    {
        proof { lemma_xsites_take(ixs, f, k as int); lemma_xtally_take(ixs, g, k as int); }
        let exchange = &exchanges[k];
        assert(*exchange.request == events[ixs[k as int].0]);
        let contents = match exchange.result {
            Some(r) => match r.get("contents") {
                Some(Json::Array(c)) => Some(c),
                _ => None,
            },
            None => None,
        };
        if let Some(contents) = contents {
            sink.examined();
            if contents.len() == 0 {
                sink.push(Some(exchange.response.seq), owned(
                    "`resources/read` answered with an empty `contents` array, which is ambiguous between an empty resource and a missing one"));
            }
        }
        k = k + 1;
    }
    proof { lemma_xsites_all(ixs, f); lemma_xtally_all(ixs, g); }
}

} // verus!
