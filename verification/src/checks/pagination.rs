//! `2026-07-28` pagination: cursors the server never issued must be refused.

use vstd::prelude::*;
use crate::checks::{FindingSink, entry_seqs, entry_views};
use crate::checks::caching::{x_method, x_params, x_result};
use crate::context::{TraceContext, Exchange, exchange_ixs, exchanges_are};
use crate::json::Json;
use crate::keymap::KeyMap;
use crate::text::{owned, push_text, text_eq, i64_text, debug_text};
use crate::trace::TraceEvent;

verus! {

/// The list methods that paginate.
pub open spec fn paginated(m: Seq<char>) -> bool {
    m == "resources/list"@ || m == "resources/templates/list"@ || m == "prompts/list"@ || m == "tools/list"@
}

fn is_paginated(m: &str) -> (r: bool)
    ensures
        r == paginated(m@),
{
    text_eq(m, "resources/list") || text_eq(m, "resources/templates/list") || text_eq(m, "prompts/list")
        || text_eq(m, "tools/list")
}

/// The seq of an exchange's request.
pub open spec fn request_seq(events: Seq<TraceEvent>, x: (int, int)) -> u64 {
    events[x.0].seq
}

/// `s` with `x` inserted after every element whose request seq is not greater.
pub open spec fn insert_by_seq(events: Seq<TraceEvent>, s: Seq<(int, int)>, x: (int, int)) -> Seq<(int, int)>
    decreases s.len(),
{
    if s.len() == 0 {
        seq![x]
    } else if request_seq(events, s.last()) <= request_seq(events, x) {
        s.push(x)
    } else {
        insert_by_seq(events, s.drop_last(), x).push(s.last())
    }
}

/// The exchanges ordered by request seq, ties kept in response order (a stable sort).
pub open spec fn by_request_seq(events: Seq<TraceEvent>, s: Seq<(int, int)>) -> Seq<(int, int)>
    decreases s.len(),
{
    if s.len() == 0 {
        Seq::empty()
    } else {
        insert_by_seq(events, by_request_seq(events, s.drop_last()), s.last())
    }
}

/// The cursor the request at `r` presents, when it is a string.
pub open spec fn presented_cursor(events: Seq<TraceEvent>, r: int) -> Option<Seq<char>> {
    match x_params(events, r) {
        Some(p) => match p.at("cursor"@) {
            Some(c) => c.text(),
            None => None,
        },
        None => None,
    }
}

/// The error code of the response at `j`, when it is an integer.
pub open spec fn answer_code(events: Seq<TraceEvent>, j: int) -> Option<int> {
    match events[j].payload().unwrap().at("error"@) {
        Some(e) => match e.at("code"@) {
            Some(c) => c.int_value(),
            None => None,
        },
        None => None,
    }
}

/// The cursor walk: the (method, cursor) pairs issued so far, and the findings.
pub open spec fn cursor_walk(events: Seq<TraceEvent>, xs: Seq<(int, int)>) -> (Set<(Seq<char>, Seq<char>)>, Seq<Option<u64>>)
    decreases xs.len(),
{
    if xs.len() == 0 {
        (Set::empty(), Seq::empty())
    } else {
        let (issued, found) = cursor_walk(events, xs.drop_last());
        let (r, j) = xs.last();
        let m = x_method(events, r);
        let found1 = if paginated(m) && presented_cursor(events, r) is Some
            && !issued.contains((m, presented_cursor(events, r).unwrap()))
            && answer_code(events, j) != Some(-32602int) {
            found.push(Some(events[j].seq))
        } else {
            found
        };
        let issued1 = if paginated(m) && x_result(events, j) is Some
            && x_result(events, j).unwrap().at("nextCursor"@) is Some
            && x_result(events, j).unwrap().at("nextCursor"@).unwrap() is Str {
            issued.insert((m, x_result(events, j).unwrap().at("nextCursor"@).unwrap().text().unwrap()))
        } else {
            issued
        };
        (issued1, found1)
    }
}

/// The findings, as (seq, sentence), of the cursor walk.
pub open spec fn cursor_entries(events: Seq<TraceEvent>, xs: Seq<(int, int)>) -> Seq<(Option<u64>, Seq<char>)>
    decreases xs.len(),
{
    if xs.len() == 0 {
        Seq::empty()
    } else {
        let prev = cursor_entries(events, xs.drop_last());
        let issued = cursor_walk(events, xs.drop_last()).0;
        let (r, j) = xs.last();
        let m = x_method(events, r);
        if paginated(m) && presented_cursor(events, r) is Some
            && !issued.contains((m, presented_cursor(events, r).unwrap()))
            && answer_code(events, j) != Some(-32602int) {
            prev.push((Some(events[j].seq), "`"@ + m + "` presented the cursor "@
                + crate::text::debug_quoted(presented_cursor(events, r).unwrap())
                + ", which this session never issued, and the server answered with "@
                + match answer_code(events, j) {
                    Some(c) => "error "@ + crate::text::signed_decimal(c),
                    None => "a result"@,
                } + " rather than -32602"@))
        } else {
            prev
        }
    }
}

/// Some exchange of `xs` answered `m` with the string `nextCursor` `c`.
pub open spec fn issued_in(events: Seq<TraceEvent>, xs: Seq<(int, int)>, m: Seq<char>, c: Seq<char>) -> bool {
    exists|k: int| 0 <= k < xs.len() && #[trigger] x_method(events, xs[k].0) == m
        && (x_result(events, xs[k].1) matches Some(r) && r.at("nextCursor"@) matches Some(n) && n.text() == Some(c))
}

/// Every cursor the walk counts as issued was handed out as the
/// `nextCursor` of an earlier answer to the same method.
proof fn lemma_issued_was_handed_out(events: Seq<TraceEvent>, xs: Seq<(int, int)>, m: Seq<char>, c: Seq<char>)
    ensures
        cursor_walk(events, xs).0.contains((m, c)) ==> issued_in(events, xs, m, c),
    decreases xs.len(),
{
    if xs.len() > 0 {
        let prefix = xs.drop_last();
        lemma_issued_was_handed_out(events, prefix, m, c);
        if cursor_walk(events, xs).0.contains((m, c)) {
            if cursor_walk(events, prefix).0.contains((m, c)) {
                let k = choose|k: int| 0 <= k < prefix.len() && #[trigger] x_method(events, prefix[k].0) == m
                    && (x_result(events, prefix[k].1) matches Some(r) && r.at("nextCursor"@) matches Some(n)
                        && n.text() == Some(c));
                assert(xs[k] == prefix[k]);
                assert(x_method(events, xs[k].0) == m);
            } else {
                let k = xs.len() - 1;
                assert(x_method(events, xs[k].0) == m);
            }
        }
    }
}

/// Law: for each of the four list methods that paginate — `resources/list`,
/// `resources/templates/list`, `prompts/list` and `tools/list` — an exchange
/// presenting a cursor that no earlier exchange of the walk handed out for that
/// method, and answered with anything but `-32602`, is a finding at the
/// response, with the sentence naming the method, the cursor and the answer.
pub proof fn lemma_unissued_cursor_reported(events: Seq<TraceEvent>, xs: Seq<(int, int)>)
    requires
        xs.len() > 0,
        x_method(events, xs.last().0) == "resources/list"@ || x_method(events, xs.last().0) == "resources/templates/list"@
            || x_method(events, xs.last().0) == "prompts/list"@ || x_method(events, xs.last().0) == "tools/list"@,
        presented_cursor(events, xs.last().0) is Some,
        !issued_in(events, xs.drop_last(), x_method(events, xs.last().0), presented_cursor(events, xs.last().0).unwrap()),
        answer_code(events, xs.last().1) != Some(-32602int),
    ensures
        cursor_walk(events, xs).1 == cursor_walk(events, xs.drop_last()).1.push(Some(events[xs.last().1].seq)),
        cursor_entries(events, xs) == cursor_entries(events, xs.drop_last()).push((Some(events[xs.last().1].seq),
            "`"@ + x_method(events, xs.last().0) + "` presented the cursor "@
            + crate::text::debug_quoted(presented_cursor(events, xs.last().0).unwrap())
            + ", which this session never issued, and the server answered with "@
            + match answer_code(events, xs.last().1) {
                Some(c) => "error "@ + crate::text::signed_decimal(c),
                None => "a result"@,
            } + " rather than -32602"@)),
{
    lemma_issued_was_handed_out(events, xs.drop_last(), x_method(events, xs.last().0),
        presented_cursor(events, xs.last().0).unwrap());
}

/// Law: an exchange of any other method is never judged: it adds no finding.
pub proof fn lemma_unpaginated_not_judged(events: Seq<TraceEvent>, xs: Seq<(int, int)>)
    requires
        xs.len() > 0,
        x_method(events, xs.last().0) != "resources/list"@,
        x_method(events, xs.last().0) != "resources/templates/list"@,
        x_method(events, xs.last().0) != "prompts/list"@,
        x_method(events, xs.last().0) != "tools/list"@,
    ensures
        cursor_walk(events, xs).1 == cursor_walk(events, xs.drop_last()).1,
        cursor_entries(events, xs) == cursor_entries(events, xs.drop_last()),
{
}

/// The subjects of the cursor walk: the paginated requests presenting a
/// cursor not issued before them.
pub open spec fn cursor_subjects(events: Seq<TraceEvent>, xs: Seq<(int, int)>) -> nat
    decreases xs.len(),
{
    if xs.len() == 0 {
        0
    } else {
        let issued = cursor_walk(events, xs.drop_last()).0;
        let r = xs.last().0;
        let m = x_method(events, r);
        cursor_subjects(events, xs.drop_last()) + if paginated(m) && presented_cursor(events, r) is Some
            && !issued.contains((m, presented_cursor(events, r).unwrap())) { 1nat } else { 0nat }
    }
}

proof fn lemma_insert_at(events: Seq<TraceEvent>, s: Seq<(int, int)>, x: (int, int), pos: int)
    requires
        0 <= pos <= s.len(),
        forall|i: int| pos <= i < s.len() ==> request_seq(events, #[trigger] s[i]) > request_seq(events, x),
        pos > 0 ==> request_seq(events, s[pos - 1]) <= request_seq(events, x),
    ensures
        insert_by_seq(events, s, x) == s.insert(pos, x),
    decreases s.len(),
{
    if pos == s.len() {
        assert(s.insert(pos, x) =~= s.push(x));
    } else {
        lemma_insert_at(events, s.drop_last(), x, pos);
        assert(s.insert(pos, x) =~= s.drop_last().insert(pos, x).push(s.last()));
    }
}

/// Sorts exchanges by request seq, stably.
fn sort_by_request_seq<'a>(xs: Vec<Exchange<'a>>, Ghost(events): Ghost<Seq<TraceEvent>>, Ghost(ixs): Ghost<Seq<(int, int)>>)
    -> (r: (Vec<Exchange<'a>>, Ghost<Seq<(int, int)>>))
    requires
        exchanges_are(xs@, events, ixs),
    ensures
        exchanges_are(r.0@, events, r.1@),
        r.1@ == by_request_seq(events, ixs),
{
    let mut sorted: Vec<Exchange<'a>> = Vec::new();
    let ghost mut sorted_ixs: Seq<(int, int)> = Seq::empty();
    let mut rest = xs;
    let ghost mut k: int = 0;
    while rest.len() > 0
        invariant
            0 <= k <= ixs.len(),
            rest@.len() == ixs.len() - k,
            exchanges_are(rest@, events, ixs.subrange(k, ixs.len() as int)),
            exchanges_are(sorted@, events, sorted_ixs),
            sorted_ixs == by_request_seq(events, ixs.take(k)),
        decreases rest@.len(),
    {
        let ghost old_rest = rest@;
        let x = rest.remove(0);
        proof {
            assert(*old_rest[0].request == events[ixs.subrange(k, ixs.len() as int)[0].0]);
            assert(exchanges_are(rest@, events, ixs.subrange(k + 1, ixs.len() as int))) by {
                assert forall|m: int| 0 <= m < rest@.len() implies rest@[m] == old_rest[m + 1] by {}
                assert forall|m: int| 0 <= m < rest@.len() implies #[trigger] ixs.subrange(k + 1, ixs.len() as int)[m]
                    == ixs.subrange(k, ixs.len() as int)[m + 1] by {}
                assert forall|m: int| 0 <= m < rest@.len() implies *#[trigger] rest@[m].request == events[ixs.subrange(k + 1, ixs.len() as int)[m].0] by {
                    assert(*old_rest[m + 1].request == events[ixs.subrange(k, ixs.len() as int)[m + 1].0]);
                }
            }
        }
        let ghost xi = ixs[k];
        let mut pos = sorted.len();
        while pos > 0 && sorted[pos - 1].request.seq > x.request.seq
            invariant
                pos <= sorted@.len(),
                exchanges_are(sorted@, events, sorted_ixs),
                *x.request == events[xi.0],
                forall|i: int| pos <= i < sorted_ixs.len() ==> request_seq(events, #[trigger] sorted_ixs[i]) > request_seq(events, xi),
            decreases pos,
        {
            assert(*sorted@[pos - 1].request == events[sorted_ixs[pos - 1].0]);
            pos = pos - 1;
        }
        proof {
            if pos > 0 {
                assert(*sorted@[pos - 1].request == events[sorted_ixs[pos - 1].0]);
            }
            lemma_insert_at(events, sorted_ixs, xi, pos as int);
            assert(ixs.take(k + 1).drop_last() =~= ixs.take(k));
            assert(ixs.take(k + 1).last() == xi);
        }
        let ghost old_sorted = sorted@;
        sorted.insert(pos, x);
        proof {
            let new_ixs = sorted_ixs.insert(pos as int, xi);
            assert forall|m: int| 0 <= m < new_ixs.len() implies {
                &&& 0 <= new_ixs[m].0 < new_ixs[m].1 < events.len()
                &&& *#[trigger] sorted@[m].request == events[new_ixs[m].0]
                &&& *sorted@[m].response == events[new_ixs[m].1]
                &&& events[new_ixs[m].0].payload() is Some
                &&& events[new_ixs[m].1].payload() is Some
                &&& sorted@[m].method@ == events[new_ixs[m].0].payload().unwrap().at("method"@).unwrap().text().unwrap()
                &&& crate::message::opt(sorted@[m].params) == events[new_ixs[m].0].payload().unwrap().at("params"@)
                &&& crate::message::opt(sorted@[m].result) == events[new_ixs[m].1].payload().unwrap().at("result"@)
            } by {
                if m < pos {
                    assert(sorted@[m] == old_sorted[m]);
                    assert(new_ixs[m] == sorted_ixs[m]);
                    assert(*old_sorted[m].request == events[sorted_ixs[m].0]);
                } else if m == pos {
                    assert(sorted@[m] == x);
                    assert(new_ixs[m] == xi);
                    assert(*old_rest[0].request == events[ixs.subrange(k, ixs.len() as int)[0].0]);
                } else {
                    assert(sorted@[m] == old_sorted[m - 1]);
                    assert(new_ixs[m] == sorted_ixs[m - 1]);
                    assert(*old_sorted[m - 1].request == events[sorted_ixs[m - 1].0]);
                }
            }
            sorted_ixs = new_ixs;
            k = k + 1;
        }
    }
    proof {
        assert(ixs.take(k) =~= ixs);
    }
    (sorted, Ghost(sorted_ixs))
}

/// `PAGE-*`: a cursor the session never issued, presented to a paginated list
/// method, draws `-32602` (invalid params). Exchanges are judged in request
/// order, each against the cursors issued by the ones before it.
pub fn invalid_cursor_rejected(context: &TraceContext<'_>, sink: &mut FindingSink)
    ensures
        final(sink).check_id() == old(sink).check_id(),
        entry_seqs(final(sink).found()) == entry_seqs(old(sink).found()) + cursor_walk(context.trace(),
            by_request_seq(context.trace(), exchange_ixs(context.trace(), context.pairs(), None, context.trace().len() as nat))).1,
        entry_views(final(sink).found()) == entry_views(old(sink).found()) + cursor_entries(context.trace(),
            by_request_seq(context.trace(), exchange_ixs(context.trace(), context.pairs(), None, context.trace().len() as nat))),
        final(sink).subject_count() == crate::checks::after_counting(old(sink).subject_count(), cursor_subjects(context.trace(),
            by_request_seq(context.trace(), exchange_ixs(context.trace(), context.pairs(), None, context.trace().len() as nat))) as int),
{
    sink.examined_many(0);
    let all = context.exchanges();
    let ghost events = context.trace();
    let ghost ixs0 = exchange_ixs(context.trace(), context.pairs(), None, context.trace().len() as nat);
    let (exchanges, Ghost(ixs)) = sort_by_request_seq(all, Ghost(events), Ghost(ixs0));
    let mut issued = KeyMap::new();
    let mut k: usize = 0;
    proof { reveal_strlit("a result"); }
    while k < exchanges.len()
        invariant
            k <= exchanges@.len(),
            exchanges_are(exchanges@, events, ixs),
            sink.check_id() == old(sink).check_id(),
            issued.view_map().dom() == cursor_walk(events, ixs.take(k as int)).0,
            entry_seqs(sink.found()) == entry_seqs(old(sink).found()) + cursor_walk(events, ixs.take(k as int)).1,
            entry_views(sink.found()) == entry_views(old(sink).found()) + cursor_entries(events, ixs.take(k as int)),
            sink.subject_count() == crate::checks::after_counting(old(sink).subject_count(), cursor_subjects(events, ixs.take(k as int)) as int),
        decreases exchanges@.len() - k,
    {
        proof {
            assert(ixs.take(k + 1).drop_last() =~= ixs.take(k as int));
            assert(ixs.take(k + 1).last() == ixs[k as int]);
        }
        let x = &exchanges[k];
        assert(*exchanges@[k as int].request == events[ixs[k as int].0]);
        let paged = is_paginated(x.method);
        if paged {
            let presented = match x.params {
                Some(p) => match p.get("cursor") {
                    Some(c) => c.as_str(),
                    None => None,
                },
                None => None,
            };
            if let Some(cursor) = presented {
                if !issued.contains(x.method, cursor) {
                    sink.examined();
                    let code = match x.response.message_payload() {
                        Some(p) => match p.get("error") {
                            Some(e) => match e.get("code") {
                                Some(c) => c.as_i64(),
                                None => None,
                            },
                            None => None,
                        },
                        None => None,
                    };
                    if code != Some(-32602i64) {
                        let mut d = owned("`");
                        push_text(&mut d, x.method);
                        push_text(&mut d, "` presented the cursor ");
                        let q = debug_text(cursor);
                        push_text(&mut d, q.as_str());
                        push_text(&mut d, ", which this session never issued, and the server answered with ");
                        match code {
                            Some(c) => {
                                push_text(&mut d, "error ");
                                let t = i64_text(c);
                                push_text(&mut d, t.as_str());
                            },
                            None => push_text(&mut d, "a result"),
                        }
                        push_text(&mut d, " rather than -32602");
                        proof {
                            assert(d@ == "`"@ + x_method(events, ixs[k as int].0) + "` presented the cursor "@
                                + crate::text::debug_quoted(presented_cursor(events, ixs[k as int].0).unwrap())
                                + ", which this session never issued, and the server answered with "@
                                + match answer_code(events, ixs[k as int].1) {
                                    Some(c) => "error "@ + crate::text::signed_decimal(c),
                                    None => "a result"@,
                                } + " rather than -32602"@);
                        }
                        sink.push(Some(x.response.seq), d);
                    }
                }
            }
            if let Some(result) = x.result {
                if let Some(next) = result.get("nextCursor") {
                    if let Some(n) = next.as_str() {
                        issued.insert(owned(x.method), owned(n), 0);
                        proof {
                            assert(issued.view_map().dom() =~= cursor_walk(events, ixs.take(k + 1)).0);
                        }
                    }
                }
            }
        }
        k = k + 1;
    }
    assert(ixs.take(ixs.len() as int) =~= ixs);
}

} // verus!
