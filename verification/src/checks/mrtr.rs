//! Multi Round-Trip Requests: the pattern that replaced server-initiated
//! requests.
//!
//! A round is two independent JSON-RPC requests. The server answers the first
//! with `resultType: "input_required"` carrying an `inputRequests` map, an
//! opaque `requestState`, or both; the client sends a new request carrying
//! `inputResponses` and echoing the state back.
//!
//! Nothing labels a request as a retry, so a client request carrying
//! `inputResponses` or `requestState` is taken as a retry of the most recent
//! `input_required` before it. A request carrying neither is never a retry.

use vstd::prelude::*;
use crate::checks::sites::{entries, lemma_entries_take, lemma_entries_all};
use crate::checks::entry_views;
use crate::checks::{FindingSink, entry_seqs};
use crate::checks::sites::{sites, lemma_sites_take, lemma_sites_all, xsites, lemma_xsites_take, lemma_xsites_all, isites};
use crate::checks::caching::{x_method, x_result};
use crate::context::{TraceContext, exchange_ixs, exchanges_are, same_value, same_json};
use crate::json::{Json, json_text, spec_lookup};
use crate::message::MessageKind;
use crate::pairing::request_id;
use crate::text::{owned, push_text, text_eq, u64_text};
use crate::trace::{Direction, TraceEvent};

verus! {

/// Whether the exchange at `x` is a round: its result says `input_required`.
pub open spec fn is_round(events: Seq<TraceEvent>, x: (int, int)) -> bool {
    x_result(events, x.1) matches Some(res) && res.at("resultType"@) matches Some(t)
        && t.text() == Some("input_required"@)
}

/// The `inputRequests` map of the result at `j`, when it is an object.
pub open spec fn round_requests(events: Seq<TraceEvent>, j: int) -> Option<Seq<(String, Json)>> {
    match x_result(events, j) {
        Some(res) => match res.at("inputRequests"@) {
            Some(Json::Object(m)) => Some(m@),
            _ => None,
        },
        None => None,
    }
}

/// The `requestState` of the result at `j`.
pub open spec fn round_state(events: Seq<TraceEvent>, j: int) -> Option<Json> {
    match x_result(events, j) {
        Some(res) => res.at("requestState"@),
        None => None,
    }
}

/// The round whose result is the event at `i`, as (request, result) indices.
pub open spec fn round_at(events: Seq<TraceEvent>, pairs: Seq<Option<usize>>, i: int) -> Option<(int, int)> {
    match pairs[i] {
        Some(r) => if request_id(events[r as int]) is Some && events[i].payload() is Some
            && is_round(events, (r as int, i)) {
            Some((r as int, i))
        } else {
            None
        },
        None => None,
    }
}

/// The most recent round among the first `n` events.
pub open spec fn latest_before(events: Seq<TraceEvent>, pairs: Seq<Option<usize>>, n: nat) -> Option<(int, int)>
    decreases n,
{
    if n == 0 {
        None
    } else {
        match round_at(events, pairs, n - 1) {
            Some(x) => Some(x),
            None => latest_before(events, pairs, (n - 1) as nat),
        }
    }
}

/// The `inputResponses` map of a request's params, when it is an object.
pub open spec fn retry_responses(params: Json) -> Option<Seq<(String, Json)>> {
    match params.at("inputResponses"@) {
        Some(Json::Object(m)) => Some(m@),
        _ => None,
    }
}

/// Whether `e` is a client request carrying a retry's marker fields.
pub open spec fn is_retry(e: TraceEvent) -> bool {
    &&& e.direction == Direction::ClientToServer
    &&& e.payload() matches Some(p)
    &&& p.at("method"@) matches Some(m)
    &&& m is Str
    &&& p.at("id"@) matches Some(id)
    &&& !(id is Null)
    &&& p.at("params"@) matches Some(params)
    &&& (retry_responses(params) is Some || params.at("requestState"@) is Some)
}

/// A retry's params.
pub open spec fn retry_params(e: TraceEvent) -> Json {
    e.payload().unwrap().at("params"@).unwrap()
}

/// A retry's `requestState`.
pub open spec fn retry_state(e: TraceEvent) -> Option<Json> {
    retry_params(e).at("requestState"@)
}

/// The client requests `supported`: the three that may draw an
/// `InputRequiredResult`.
pub open spec fn supported(m: Seq<char>) -> bool {
    m == "prompts/get"@ || m == "resources/read"@ || m == "tools/call"@
}

/// A round answering a request that may not draw one.
pub open spec fn unsupported_site(events: Seq<TraceEvent>, x: (int, int)) -> Seq<Option<u64>> {
    if is_round(events, x) && !supported(x_method(events, x.0)) { seq![Some(events[x.1].seq)] } else { Seq::empty() }
}

/// The request objects an `inputRequests` value may be.
pub open spec fn input_request_method(m: Seq<char>) -> bool {
    m == "elicitation/create"@ || m == "sampling/createMessage"@ || m == "roots/list"@
}

/// One finding per `inputRequests` value that is not one of the three request
/// objects.
pub open spec fn bad_request_sites(requests: Seq<(String, Json)>, seq: u64) -> Seq<Option<u64>>
    decreases requests.len(),
{
    if requests.len() == 0 {
        Seq::empty()
    } else {
        bad_request_sites(requests.drop_last(), seq)
            + if requests.last().1.at("method"@) matches Some(m) && m.text() matches Some(t) && input_request_method(t) {
                Seq::empty()
            } else {
                seq![Some(seq)]
            }
    }
}

/// The request-object findings of a round.
pub open spec fn request_methods_site(events: Seq<TraceEvent>, x: (int, int)) -> Seq<Option<u64>> {
    if is_round(events, x) && round_requests(events, x.1) is Some {
        bad_request_sites(round_requests(events, x.1).unwrap(), events[x.1].seq)
    } else {
        Seq::empty()
    }
}

/// A round carrying neither `inputRequests` nor `requestState`.
pub open spec fn empty_round_site(events: Seq<TraceEvent>, x: (int, int)) -> Seq<Option<u64>> {
    if is_round(events, x) && round_requests(events, x.1) is None && round_state(events, x.1) is None {
        seq![Some(events[x.1].seq)]
    } else {
        Seq::empty()
    }
}

/// Whether `responses` answers `key`.
pub open spec fn has_response(responses: Option<Seq<(String, Json)>>, key: Seq<char>) -> bool {
    responses matches Some(m) && spec_lookup(m, key) is Some
}

/// One finding per `inputRequests` key the retry's `inputResponses` leaves
/// unanswered, at the retry's seq.
pub open spec fn missing_sites(requests: Seq<(String, Json)>, responses: Option<Seq<(String, Json)>>, seq: u64) -> Seq<Option<u64>>
    decreases requests.len(),
{
    if requests.len() == 0 {
        Seq::empty()
    } else {
        missing_sites(requests.drop_last(), responses, seq)
            + if has_response(responses, requests.last().0@) { Seq::empty() } else { seq![Some(seq)] }
    }
}

/// The unanswered-input findings of the event at `i`, when it is a retry.
pub open spec fn carries_site(events: Seq<TraceEvent>, pairs: Seq<Option<usize>>, i: int) -> Seq<Option<u64>> {
    if is_retry(events[i]) {
        match latest_before(events, pairs, i as nat) {
            Some(x) => match round_requests(events, x.1) {
                Some(reqs) => missing_sites(reqs, retry_responses(retry_params(events[i])), events[i].seq),
                None => Seq::empty(),
            },
            None => Seq::empty(),
        }
    } else {
        Seq::empty()
    }
}

/// A retry that does not echo the state its round issued.
pub open spec fn echoed_site(events: Seq<TraceEvent>, pairs: Seq<Option<usize>>, i: int) -> Seq<Option<u64>> {
    if is_retry(events[i]) {
        match latest_before(events, pairs, i as nat) {
            Some(x) => match round_state(events, x.1) {
                Some(issued) => if retry_state(events[i]) matches Some(echoed) && same_value(echoed, issued) {
                    Seq::empty()
                } else {
                    seq![Some(events[i].seq)]
                },
                None => Seq::empty(),
            },
            None => Seq::empty(),
        }
    } else {
        Seq::empty()
    }
}

/// A retry presenting state no earlier round issued.
pub open spec fn unsolicited_site(events: Seq<TraceEvent>, pairs: Seq<Option<usize>>, i: int) -> Seq<Option<u64>> {
    if is_retry(events[i]) && retry_state(events[i]) is Some
        && !(latest_before(events, pairs, i as nat) matches Some(x) && round_state(events, x.1) is Some) {
        seq![Some(events[i].seq)]
    } else {
        Seq::empty()
    }
}

/// A retry reusing the id of the request its round answered.
pub open spec fn reused_id_site(events: Seq<TraceEvent>, pairs: Seq<Option<usize>>, i: int) -> Seq<Option<u64>> {
    if is_retry(events[i]) && latest_before(events, pairs, i as nat) is Some
        && same_value(events[i].payload().unwrap().at("id"@).unwrap(),
            events[latest_before(events, pairs, i as nat).unwrap().0].payload().unwrap().at("id"@).unwrap()) {
        seq![Some(events[i].seq)]
    } else {
        Seq::empty()
    }
}

/// The states rounds issued, with the method of the request that drew each,
/// over the exchanges `ixs` in order.
pub open spec fn issued_list(events: Seq<TraceEvent>, ixs: Seq<(int, int)>) -> Seq<(Seq<char>, Seq<char>)>
    decreases ixs.len(),
{
    if ixs.len() == 0 {
        Seq::empty()
    } else {
        let x = ixs.last();
        if is_round(events, x) && round_state(events, x.1) is Some {
            issued_list(events, ixs.drop_last()).push((json_text(round_state(events, x.1).unwrap()), x_method(events, x.0)))
        } else {
            issued_list(events, ixs.drop_last())
        }
    }
}

/// The method recorded last for state text `t`.
pub open spec fn last_method_for(list: Seq<(Seq<char>, Seq<char>)>, t: Seq<char>) -> Option<Seq<char>>
    decreases list.len(),
{
    if list.len() == 0 {
        None
    } else if list.last().0 == t {
        Some(list.last().1)
    } else {
        last_method_for(list.drop_last(), t)
    }
}

/// A retry presenting a state issued for a request of another method.
pub open spec fn scoped_site(events: Seq<TraceEvent>, pairs: Seq<Option<usize>>, e: TraceEvent) -> Seq<Option<u64>> {
    if is_retry(e) && retry_state(e) is Some {
        match last_method_for(issued_list(events, exchange_ixs(events, pairs, None, events.len() as nat)),
            json_text(retry_state(e).unwrap())) {
            Some(m) => if Some(m) != e.payload().unwrap().at("method"@).unwrap().text() {
                seq![Some(e.seq)]
            } else {
                Seq::empty()
            },
            None => Seq::empty(),
        }
    } else {
        Seq::empty()
    }
}

/// A retry that left input unanswered and drew an error.
pub open spec fn reasked_site(events: Seq<TraceEvent>, pairs: Seq<Option<usize>>, x: (int, int)) -> Seq<Option<u64>> {
    if is_retry(events[x.0]) && x_result(events, x.1) is None {
        match latest_before(events, pairs, x.0 as nat) {
            Some(y) => match round_requests(events, y.1) {
                Some(reqs) => if missing_sites(reqs, retry_responses(retry_params(events[x.0])), 0).len() > 0 {
                    seq![Some(events[x.1].seq)]
                } else {
                    Seq::empty()
                },
                None => Seq::empty(),
            },
            None => Seq::empty(),
        }
    } else {
        Seq::empty()
    }
}

/// The round whose result is the event at `i`, as (request, result) indices.
fn round_here(context: &TraceContext<'_>, i: usize) -> (r: Option<(usize, usize)>)
    requires
        i < context.trace().len(),
    ensures
        match r {
            Some((a, b)) => round_at(context.trace(), context.pairs(), i as int) == Some((a as int, b as int))
                && a < b && b == i,
            None => round_at(context.trace(), context.pairs(), i as int) is None,
        },
{
    proof { reveal_strlit("input_required"); }
    let r = match context.paired(i) {
        Some(r) => r,
        None => return None,
    };
    let result = match context.event(i).message_payload() {
        Some(p) => p.get("result"),
        None => None,
    };
    let kind = match result {
        Some(res) => match res.get("resultType") {
            Some(t) => match t.as_str() {
                Some(s) => text_eq(s, "input_required"),
                None => false,
            },
            None => false,
        },
        None => false,
    };
    if kind { Some((r, i)) } else { None }
}

/// Each event position's most recent earlier round.
fn latest_rounds(context: &TraceContext<'_>) -> (v: Vec<Option<(usize, usize)>>)
    ensures
        v@.len() == context.trace().len(),
        forall|i: int| 0 <= i < v@.len() ==> match #[trigger] v@[i] {
            Some((a, b)) => latest_before(context.trace(), context.pairs(), i as nat) == Some((a as int, b as int))
                && a < b && b < i,
            None => latest_before(context.trace(), context.pairs(), i as nat) is None,
        },
{
    let ghost events = context.trace();
    let ghost pairs = context.pairs();
    let n = context.len();
    let mut v: Vec<Option<(usize, usize)>> = Vec::new();
    let mut latest: Option<(usize, usize)> = None;
    let mut i: usize = 0;
    while i < n
        invariant
            n == events.len(),
            events == context.trace(),
            pairs == context.pairs(),
            i <= n,
            v@.len() == i,
            match latest {
                Some((a, b)) => latest_before(events, pairs, i as nat) == Some((a as int, b as int)) && a < b && b < i,
                None => latest_before(events, pairs, i as nat) is None,
            },
            forall|k: int| 0 <= k < v@.len() ==> match #[trigger] v@[k] {
                Some((a, b)) => latest_before(events, pairs, k as nat) == Some((a as int, b as int)) && a < b && b < k,
                None => latest_before(events, pairs, k as nat) is None,
            },
        decreases n - i,
    {
        v.push(latest);
        if let Some(x) = round_here(context, i) {
            latest = Some(x);
        }
        i = i + 1;
    }
    v
}

/// The id, method and params of the retry at `i`, when the event is one.
fn retry_at<'a>(context: &TraceContext<'a>, i: usize) -> (r: Option<(&'a Json, &'a str, &'a Json)>)
    requires
        i < context.trace().len(),
    ensures
        match r {
            Some((id, method, params)) => {
                &&& is_retry(context.trace()[i as int])
                &&& context.trace()[i as int].payload().unwrap().at("id"@) == Some(*id)
                &&& context.trace()[i as int].payload().unwrap().at("method"@).unwrap().text() == Some(method@)
                &&& retry_params(context.trace()[i as int]) == *params
            },
            None => !is_retry(context.trace()[i as int]),
        },
{
    let event = context.event(i);
    if event.direction != Direction::ClientToServer {
        return None;
    }
    let p = match event.message_payload() {
        Some(p) => p,
        None => return None,
    };
    let method = match p.get("method") {
        Some(m) => match m.as_str() {
            Some(s) => s,
            None => return None,
        },
        None => return None,
    };
    let id = match p.get("id") {
        Some(id) => id,
        None => return None,
    };
    if id.is_null() {
        return None;
    }
    let params = match p.get("params") {
        Some(params) => params,
        None => return None,
    };
    let responses = match params.get("inputResponses") {
        Some(v) => v.is_object(),
        None => false,
    };
    if responses || params.get("requestState").is_some() {
        Some((id, method, params))
    } else {
        None
    }
}

fn is_supported(m: &str) -> (r: bool)
    ensures
        r == supported(m@),
{
    text_eq(m, "prompts/get") || text_eq(m, "resources/read") || text_eq(m, "tools/call")
}

fn is_input_request_method(m: &str) -> (r: bool)
    ensures
        r == input_request_method(m@),
{
    text_eq(m, "elicitation/create") || text_eq(m, "sampling/createMessage") || text_eq(m, "roots/list")
}

/// Whether the exchange's result says `input_required`.
fn round_result(result: Option<&Json>) -> (r: bool)
    ensures
        r == (match result { Some(res) => res.at("resultType"@) matches Some(t) && t.text() == Some("input_required"@), None => false }),
{
    proof { reveal_strlit("input_required"); }
    match result {
        Some(res) => match res.get("resultType") {
            Some(t) => match t.as_str() {
                Some(s) => text_eq(s, "input_required"),
                None => false,
            },
            None => false,
        },
        None => false,
    }
}

/// `MRTR-004`: `InputRequiredResult` answers only the three supported requests.
pub fn input_required_supported_methods(context: &TraceContext<'_>, sink: &mut FindingSink)
    ensures
        final(sink).check_id() == old(sink).check_id(),
        final(sink).subject_count() == old(sink).subject_count(),
        entry_seqs(final(sink).found()) == entry_seqs(old(sink).found()) + xsites(
            exchange_ixs(context.trace(), context.pairs(), None, context.trace().len() as nat),
            |x: (int, int)| unsupported_site(context.trace(), x)),
{
    let exchanges = context.exchanges();
    let ghost events = context.trace();
    let ghost ixs = exchange_ixs(context.trace(), context.pairs(), None, context.trace().len() as nat);
    let ghost f = |x: (int, int)| unsupported_site(events, x);
    let mut k: usize = 0;
    while k < exchanges.len()
        invariant
            k <= exchanges@.len(),
            exchanges_are(exchanges@, events, ixs),
            f == (|x: (int, int)| unsupported_site(events, x)),
            sink.check_id() == old(sink).check_id(),
            sink.subject_count() == old(sink).subject_count(),
            entry_seqs(sink.found()) == entry_seqs(old(sink).found()) + xsites(ixs.take(k as int), f),
        decreases exchanges@.len() - k,
    {
        proof { lemma_xsites_take(ixs, f, k as int); }
        let exchange = &exchanges[k];
        assert(*exchange.request == events[ixs[k as int].0]);
        if round_result(exchange.result) && !is_supported(exchange.method) {
            let mut d = owned("`input_required` answers `");
            push_text(&mut d, exchange.method);
            push_text(&mut d, "`; this revision permits it only on prompts/get, resources/read, tools/call");
            sink.push(Some(exchange.response.seq), d);
        }
        k = k + 1;
    }
    proof { lemma_xsites_all(ixs, f); }
}

/// `MRTR-006`: each `inputRequests` value is one of the three request objects.
pub fn input_request_methods(context: &TraceContext<'_>, sink: &mut FindingSink)
    ensures
        final(sink).check_id() == old(sink).check_id(),
        final(sink).subject_count() == old(sink).subject_count(),
        entry_seqs(final(sink).found()) == entry_seqs(old(sink).found()) + xsites(
            exchange_ixs(context.trace(), context.pairs(), None, context.trace().len() as nat),
            |x: (int, int)| request_methods_site(context.trace(), x)),
{
    let exchanges = context.exchanges();
    let ghost events = context.trace();
    let ghost ixs = exchange_ixs(context.trace(), context.pairs(), None, context.trace().len() as nat);
    let ghost f = |x: (int, int)| request_methods_site(events, x);
    let mut k: usize = 0;
    while k < exchanges.len()
        invariant
            k <= exchanges@.len(),
            exchanges_are(exchanges@, events, ixs),
            f == (|x: (int, int)| request_methods_site(events, x)),
            sink.check_id() == old(sink).check_id(),
            sink.subject_count() == old(sink).subject_count(),
            entry_seqs(sink.found()) == entry_seqs(old(sink).found()) + xsites(ixs.take(k as int), f),
        decreases exchanges@.len() - k,
    {
        proof { lemma_xsites_take(ixs, f, k as int); }
        let exchange = &exchanges[k];
        assert(*exchange.request == events[ixs[k as int].0]);
        if round_result(exchange.result) {
            let requests = match exchange.result.unwrap().get("inputRequests") {
                Some(Json::Object(members)) => Some(members),
                _ => None,
            };
            if let Some(requests) = requests {
                let ghost before = entry_seqs(sink.found());
                let ghost rs = requests@;
                let seq = exchange.response.seq;
                let mut q: usize = 0;
                while q < requests.len()
                    invariant
                        q <= rs.len(),
                        rs == requests@,
                        sink.check_id() == old(sink).check_id(),
                        sink.subject_count() == old(sink).subject_count(),
                        entry_seqs(sink.found()) == before + bad_request_sites(rs.take(q as int), seq),
                    decreases rs.len() - q,
                {
                    proof { assert(rs.take(q + 1).drop_last() =~= rs.take(q as int)); }
                    let (key, request) = (&requests[q].0, &requests[q].1);
                    let method = match request.get("method") {
                        Some(m) => m.as_str(),
                        None => None,
                    };
                    match method {
                        Some(m) => if !is_input_request_method(m) {
                            let mut d = owned("`inputRequests[");
                            push_text(&mut d, key.as_str());
                            push_text(&mut d, "]` asks for `");
                            push_text(&mut d, m);
                            push_text(&mut d, "`, which is not one of ElicitRequest, CreateMessageRequest or ListRootsRequest");
                            sink.push(Some(seq), d);
                        },
                        None => {
                            let mut d = owned("`inputRequests[");
                            push_text(&mut d, key.as_str());
                            push_text(&mut d, "]` is not a request object with a `method`");
                            sink.push(Some(seq), d);
                        },
                    }
                    q = q + 1;
                }
                assert(rs.take(rs.len() as int) =~= rs);
            }
        }
        k = k + 1;
    }
    proof { lemma_xsites_all(ixs, f); }
}

/// `MRTR-011`: an `InputRequiredResult` carries `inputRequests`,
/// `requestState`, or both; with neither, the round it opens cannot complete.
pub fn input_required_has_content(context: &TraceContext<'_>, sink: &mut FindingSink)
    ensures
        final(sink).check_id() == old(sink).check_id(),
        crate::checks::extends_with(old(sink).found(), final(sink).found(), "`input_required` carries neither `inputRequests` nor `requestState`, so the round it opens cannot be completed"@),
        final(sink).subject_count() == old(sink).subject_count(),
        entry_seqs(final(sink).found()) == entry_seqs(old(sink).found()) + xsites(
            exchange_ixs(context.trace(), context.pairs(), None, context.trace().len() as nat),
            |x: (int, int)| empty_round_site(context.trace(), x)),
{
    let exchanges = context.exchanges();
    let ghost events = context.trace();
    let ghost ixs = exchange_ixs(context.trace(), context.pairs(), None, context.trace().len() as nat);
    let ghost f = |x: (int, int)| empty_round_site(events, x);
    let mut k: usize = 0;
    while k < exchanges.len()
        invariant
            k <= exchanges@.len(),
            exchanges_are(exchanges@, events, ixs),
            f == (|x: (int, int)| empty_round_site(events, x)),
            sink.check_id() == old(sink).check_id(),
            crate::checks::extends_with(old(sink).found(), sink.found(), "`input_required` carries neither `inputRequests` nor `requestState`, so the round it opens cannot be completed"@),
            sink.subject_count() == old(sink).subject_count(),
            entry_seqs(sink.found()) == entry_seqs(old(sink).found()) + xsites(ixs.take(k as int), f),
        decreases exchanges@.len() - k,
    {
        proof { lemma_xsites_take(ixs, f, k as int); }
        let exchange = &exchanges[k];
        assert(*exchange.request == events[ixs[k as int].0]);
        if round_result(exchange.result) {
            let result = exchange.result.unwrap();
            let requests = match result.get("inputRequests") {
                Some(v) => v.is_object(),
                None => false,
            };
            if !requests && result.get("requestState").is_none() {
                sink.push(Some(exchange.response.seq), owned(
                    "`input_required` carries neither `inputRequests` nor `requestState`, so the round it opens cannot be completed"));
            }
        }
        k = k + 1;
    }
    proof { lemma_xsites_all(ixs, f); }
}

/// What the latest round names is a round.
proof fn lemma_latest(events: Seq<TraceEvent>, pairs: Seq<Option<usize>>, n: nat)
    ensures
        latest_before(events, pairs, n) matches Some((a, b)) ==> round_at(events, pairs, b) == Some((a, b)) && b < n,
    decreases n,
{
    if n > 0 {
        lemma_latest(events, pairs, (n - 1) as nat);
    }
}

/// The `inputRequests` members of the round result at `j`, when an object.
fn requests_of<'a>(context: &TraceContext<'a>, a: usize, j: usize) -> (r: Option<&'a Vec<(String, Json)>>)
    requires
        j < context.trace().len(),
        round_at(context.trace(), context.pairs(), j as int) == Some((a as int, j as int)),
    ensures
        match r {
            Some(m) => round_requests(context.trace(), j as int) == Some(m@),
            None => round_requests(context.trace(), j as int) is None,
        },
{
    let result = context.event(j).message_payload().unwrap().get("result").unwrap();
    match result.get("inputRequests") {
        Some(Json::Object(members)) => Some(members),
        _ => None,
    }
}

/// The `requestState` of the round result at `j`.
fn state_of<'a>(context: &TraceContext<'a>, a: usize, j: usize) -> (r: Option<&'a Json>)
    requires
        j < context.trace().len(),
        round_at(context.trace(), context.pairs(), j as int) == Some((a as int, j as int)),
    ensures
        match r {
            Some(v) => round_state(context.trace(), j as int) == Some(*v),
            None => round_state(context.trace(), j as int) is None,
        },
{
    let result = context.event(j).message_payload().unwrap().get("result").unwrap();
    result.get("requestState")
}

/// A retry's `inputResponses`, when it is an object.
fn responses_of(params: &Json) -> (r: Option<&Json>)
    ensures
        match r {
            Some(v) => *v is Object && retry_responses(*params) == Some(v->Object_0@),
            None => retry_responses(*params) is None,
        },
{
    match params.get("inputResponses") {
        Some(v) => if v.is_object() { Some(v) } else { None },
        None => None,
    }
}

fn answered(responses: Option<&Json>, key: &str) -> (r: bool)
    requires
        responses matches Some(v) ==> *v is Object,
    ensures
        r == has_response(match responses { Some(v) => Some(v->Object_0@), None => None }, key@),
{
    match responses {
        Some(v) => v.get(key).is_some(),
        None => false,
    }
}

/// The keys of `requests` that `responses` leaves unanswered.
fn missing_keys(requests: &Vec<(String, Json)>, responses: Option<&Json>) -> (r: Vec<String>)
    requires
        responses matches Some(v) ==> *v is Object,
    ensures
        r@.len() == missing_sites(requests@, match responses { Some(v) => Some(v->Object_0@), None => None }, 0).len(),
{
    let ghost view = match responses { Some(v) => Some(v->Object_0@), None => None };
    let mut out: Vec<String> = Vec::new();
    let mut q: usize = 0;
    while q < requests.len()
        invariant
            q <= requests@.len(),
            responses matches Some(v) ==> *v is Object,
            view == match responses { Some(v) => Some(v->Object_0@), None => None },
            out@.len() == missing_sites(requests@.take(q as int), view, 0).len(),
        decreases requests@.len() - q,
    {
        proof { assert(requests@.take(q + 1).drop_last() =~= requests@.take(q as int)); }
        if !answered(responses, requests[q].0.as_str()) {
            out.push(owned(requests[q].0.as_str()));
        }
        q = q + 1;
    }
    assert(requests@.take(requests@.len() as int) =~= requests@);
    out
}

/// `MRTR-015`: a retry carries responses for everything its round asked for.
pub fn retry_carries_input_responses(context: &TraceContext<'_>, sink: &mut FindingSink)
    ensures
        final(sink).check_id() == old(sink).check_id(),
        final(sink).subject_count() == old(sink).subject_count(),
        entry_seqs(final(sink).found()) == entry_seqs(old(sink).found())
            + isites(context.trace().len() as nat, |i: int| carries_site(context.trace(), context.pairs(), i)),
{
    let ghost events = context.trace();
    let ghost pairs = context.pairs();
    let ghost f = |i: int| carries_site(events, pairs, i);
    let latest = latest_rounds(context);
    let n = context.len();
    let mut i: usize = 0;
    while i < n
        invariant
            n == events.len(),
            events == context.trace(),
            pairs == context.pairs(),
            latest@.len() == n,
            forall|k: int| 0 <= k < latest@.len() ==> match #[trigger] latest@[k] {
                Some((a, b)) => latest_before(events, pairs, k as nat) == Some((a as int, b as int)) && a < b && b < k,
                None => latest_before(events, pairs, k as nat) is None,
            },
            i <= n,
            f == (|i: int| carries_site(events, pairs, i)),
            sink.check_id() == old(sink).check_id(),
            sink.subject_count() == old(sink).subject_count(),
            entry_seqs(sink.found()) == entry_seqs(old(sink).found()) + isites(i as nat, f),
        decreases n - i,
    {
        let ghost before = entry_seqs(sink.found());
        if let Some((_id, _method, params)) = retry_at(context, i) {
            if let Some((a, j)) = latest[i] {
                proof { lemma_latest(events, pairs, i as nat); }
                if let Some(requests) = requests_of(context, a, j) {
                    let responses = responses_of(params);
                    let ghost view = match responses { Some(v) => Some(v->Object_0@), None => None };
                    let seq = context.event(i).seq;
                    let round_seq = context.event(j).seq;
                    let mut q: usize = 0;
                    while q < requests.len()
                        invariant
                            q <= requests@.len(),
                            responses matches Some(v) ==> *v is Object,
                            view == match responses { Some(v) => Some(v->Object_0@), None => None },
                            sink.check_id() == old(sink).check_id(),
                            sink.subject_count() == old(sink).subject_count(),
                            entry_seqs(sink.found()) == before + missing_sites(requests@.take(q as int), view, seq),
                        decreases requests@.len() - q,
                    {
                        proof { assert(requests@.take(q + 1).drop_last() =~= requests@.take(q as int)); }
                        if !answered(responses, requests[q].0.as_str()) {
                            let mut d = owned("the retry carries no `inputResponses[");
                            push_text(&mut d, requests[q].0.as_str());
                            push_text(&mut d, "]` for the input the `input_required` at seq ");
                            let t = u64_text(round_seq);
                            push_text(&mut d, t.as_str());
                            push_text(&mut d, " asked for");
                            sink.push(Some(seq), d);
                        }
                        q = q + 1;
                    }
                    assert(requests@.take(requests@.len() as int) =~= requests@);
                }
            }
        }
        assert(entry_seqs(sink.found()) =~= before + f(i as int));
        i = i + 1;
    }
}

/// `MRTR-016`/`MRTR-003`/`MRTR-017`: the retry echoes `requestState` exactly.
pub fn request_state_echoed(context: &TraceContext<'_>, sink: &mut FindingSink)
    ensures
        final(sink).check_id() == old(sink).check_id(),
        final(sink).subject_count() == old(sink).subject_count(),
        entry_seqs(final(sink).found()) == entry_seqs(old(sink).found())
            + isites(context.trace().len() as nat, |i: int| echoed_site(context.trace(), context.pairs(), i)),
{
    let ghost events = context.trace();
    let ghost pairs = context.pairs();
    let ghost f = |i: int| echoed_site(events, pairs, i);
    let latest = latest_rounds(context);
    let n = context.len();
    let mut i: usize = 0;
    while i < n
        invariant
            n == events.len(),
            events == context.trace(),
            pairs == context.pairs(),
            latest@.len() == n,
            forall|k: int| 0 <= k < latest@.len() ==> match #[trigger] latest@[k] {
                Some((a, b)) => latest_before(events, pairs, k as nat) == Some((a as int, b as int)) && a < b && b < k,
                None => latest_before(events, pairs, k as nat) is None,
            },
            i <= n,
            f == (|i: int| echoed_site(events, pairs, i)),
            sink.check_id() == old(sink).check_id(),
            sink.subject_count() == old(sink).subject_count(),
            entry_seqs(sink.found()) == entry_seqs(old(sink).found()) + isites(i as nat, f),
        decreases n - i,
    {
        let ghost before = entry_seqs(sink.found());
        if let Some((_id, _method, params)) = retry_at(context, i) {
            if let Some((a, j)) = latest[i] {
                proof { lemma_latest(events, pairs, i as nat); }
                if let Some(issued) = state_of(context, a, j) {
                    let seq = context.event(i).seq;
                    let round_seq = context.event(j).seq;
                    match params.get("requestState") {
                        Some(echoed) => if !same_json(echoed, issued) {
                            let mut d = owned("the retry echoes `requestState` ");
                            let e = echoed.to_text();
                            push_text(&mut d, e.as_str());
                            push_text(&mut d, " instead of the ");
                            let t = issued.to_text();
                            push_text(&mut d, t.as_str());
                            push_text(&mut d, " the `input_required` at seq ");
                            let r = u64_text(round_seq);
                            push_text(&mut d, r.as_str());
                            push_text(&mut d, " issued");
                            sink.push(Some(seq), d);
                        },
                        None => {
                            let mut d = owned("the retry omits the `requestState` the `input_required` at seq ");
                            let r = u64_text(round_seq);
                            push_text(&mut d, r.as_str());
                            push_text(&mut d, " issued, which it must echo back exactly");
                            sink.push(Some(seq), d);
                        },
                    }
                }
            }
        }
        assert(entry_seqs(sink.found()) =~= before + f(i as int));
        i = i + 1;
    }
}

/// `MRTR-018`: no `requestState` in a retry the server did not give one for.
pub fn no_unsolicited_request_state(context: &TraceContext<'_>, sink: &mut FindingSink)
    ensures
        final(sink).check_id() == old(sink).check_id(),
        crate::checks::extends_with(old(sink).found(), final(sink).found(), "the request carries a `requestState` that no `input_required` before it issued"@),
        final(sink).subject_count() == old(sink).subject_count(),
        entry_seqs(final(sink).found()) == entry_seqs(old(sink).found())
            + isites(context.trace().len() as nat, |i: int| unsolicited_site(context.trace(), context.pairs(), i)),
{
    let ghost events = context.trace();
    let ghost pairs = context.pairs();
    let ghost f = |i: int| unsolicited_site(events, pairs, i);
    let latest = latest_rounds(context);
    let n = context.len();
    let mut i: usize = 0;
    while i < n
        invariant
            n == events.len(),
            events == context.trace(),
            pairs == context.pairs(),
            latest@.len() == n,
            forall|k: int| 0 <= k < latest@.len() ==> match #[trigger] latest@[k] {
                Some((a, b)) => latest_before(events, pairs, k as nat) == Some((a as int, b as int)) && a < b && b < k,
                None => latest_before(events, pairs, k as nat) is None,
            },
            i <= n,
            f == (|i: int| unsolicited_site(events, pairs, i)),
            sink.check_id() == old(sink).check_id(),
            crate::checks::extends_with(old(sink).found(), sink.found(), "the request carries a `requestState` that no `input_required` before it issued"@),
            sink.subject_count() == old(sink).subject_count(),
            entry_seqs(sink.found()) == entry_seqs(old(sink).found()) + isites(i as nat, f),
        decreases n - i,
    {
        let ghost before = entry_seqs(sink.found());
        if let Some((_id, _method, params)) = retry_at(context, i) {
            if params.get("requestState").is_some() {
                let issued = match latest[i] {
                    Some((a, j)) => {
                        proof { lemma_latest(events, pairs, i as nat); }
                        state_of(context, a, j).is_some()
                    },
                    None => false,
                };
                if !issued {
                    sink.push(Some(context.event(i).seq), owned(
                        "the request carries a `requestState` that no `input_required` before it issued"));
                }
            }
        }
        assert(entry_seqs(sink.found()) =~= before + f(i as int));
        i = i + 1;
    }
}

/// `MRTR-019`: the retry is a new request, with a new id.
pub fn retry_id_differs(context: &TraceContext<'_>, sink: &mut FindingSink)
    ensures
        final(sink).check_id() == old(sink).check_id(),
        final(sink).subject_count() == old(sink).subject_count(),
        entry_seqs(final(sink).found()) == entry_seqs(old(sink).found())
            + isites(context.trace().len() as nat, |i: int| reused_id_site(context.trace(), context.pairs(), i)),
{
    let ghost events = context.trace();
    let ghost pairs = context.pairs();
    let ghost f = |i: int| reused_id_site(events, pairs, i);
    let latest = latest_rounds(context);
    let n = context.len();
    let mut i: usize = 0;
    while i < n
        invariant
            n == events.len(),
            events == context.trace(),
            pairs == context.pairs(),
            latest@.len() == n,
            forall|k: int| 0 <= k < latest@.len() ==> match #[trigger] latest@[k] {
                Some((a, b)) => latest_before(events, pairs, k as nat) == Some((a as int, b as int)) && a < b && b < k,
                None => latest_before(events, pairs, k as nat) is None,
            },
            i <= n,
            f == (|i: int| reused_id_site(events, pairs, i)),
            sink.check_id() == old(sink).check_id(),
            sink.subject_count() == old(sink).subject_count(),
            entry_seqs(sink.found()) == entry_seqs(old(sink).found()) + isites(i as nat, f),
        decreases n - i,
    {
        let ghost before = entry_seqs(sink.found());
        if let Some((id, _method, _params)) = retry_at(context, i) {
            if let Some((a, j)) = latest[i] {
                proof { lemma_latest(events, pairs, i as nat); }
                let origin = context.event(a);
                let origin_id = origin.message_payload().unwrap().get("id").unwrap();
                if same_json(id, origin_id) {
                    let mut d = owned("the retry reuses id ");
                    let t = origin_id.to_text();
                    push_text(&mut d, t.as_str());
                    push_text(&mut d, " from the request at seq ");
                    let s = u64_text(origin.seq);
                    push_text(&mut d, s.as_str());
                    push_text(&mut d, "; the two are independent requests and must not share one");
                    sink.push(Some(context.event(i).seq), d);
                }
            }
        }
        assert(entry_seqs(sink.found()) =~= before + f(i as int));
        i = i + 1;
    }
}

/// The views of (state text, method) pairs.
pub open spec fn issued_views(v: Seq<(String, &str)>) -> Seq<(Seq<char>, Seq<char>)> {
    v.map_values(|x: (String, &str)| (x.0@, x.1@))
}

fn issued_states<'a>(context: &TraceContext<'a>) -> (r: Vec<(String, &'a str)>)
    ensures
        issued_views(r@) == issued_list(context.trace(),
            exchange_ixs(context.trace(), context.pairs(), None, context.trace().len() as nat)),
{
    let exchanges = context.exchanges();
    let ghost events = context.trace();
    let ghost ixs = exchange_ixs(context.trace(), context.pairs(), None, context.trace().len() as nat);
    let mut out: Vec<(String, &'a str)> = Vec::new();
    let mut k: usize = 0;
    while k < exchanges.len()
        invariant
            k <= exchanges@.len(),
            exchanges_are(exchanges@, events, ixs),
            issued_views(out@) == issued_list(events, ixs.take(k as int)),
        decreases exchanges@.len() - k,
    {
        proof { assert(ixs.take(k + 1).drop_last() =~= ixs.take(k as int)); }
        let exchange = &exchanges[k];
        assert(*exchange.request == events[ixs[k as int].0]);
        if round_result(exchange.result) {
            if let Some(state) = exchange.result.unwrap().get("requestState") {
                out.push((state.to_text(), exchange.method));
            }
        }
        assert(issued_views(out@) =~= issued_list(events, ixs.take(k + 1)));
        k = k + 1;
    }
    proof { assert(ixs.take(ixs.len() as int) =~= ixs); }
    out
}

fn lookup_method<'a>(list: &Vec<(String, &'a str)>, t: &str) -> (r: Option<&'a str>)
    ensures
        match r {
            Some(m) => last_method_for(issued_views(list@), t@) == Some(m@),
            None => last_method_for(issued_views(list@), t@) is None,
        },
{
    let ghost views = issued_views(list@);
    let mut i = list.len();
    assert(views.take(i as int) =~= views);
    while i > 0
        invariant
            i <= list@.len(),
            views == issued_views(list@),
            last_method_for(views, t@) == last_method_for(views.take(i as int), t@),
        decreases i,
    {
        i = i - 1;
        proof {
            assert(views.take(i + 1).drop_last() =~= views.take(i as int));
            assert(views.take(i + 1).last() == (list@[i as int].0@, list@[i as int].1@));
        }
        if text_eq(list[i].0.as_str(), t) {
            return Some(list[i].1);
        }
    }
    None
}

/// The finding, as (seq, sentence), of a `requestState` presented on a request
/// of another method than the one that drew it.
pub open spec fn scoped_entry(events: Seq<TraceEvent>, pairs: Seq<Option<usize>>, e: TraceEvent) -> Seq<(Option<u64>, Seq<char>)> {
    if scoped_site(events, pairs, e).len() > 0 {
        seq![(Some(e.seq), "`"@ + e.payload().unwrap().at("method"@).unwrap().text().unwrap()
            + "` carries the `requestState` issued for a `"@
            + last_method_for(issued_list(events, exchange_ixs(events, pairs, None, events.len() as nat)),
                json_text(retry_state(e).unwrap())).unwrap()
            + "` request; it affects only that request's retry"@)]
    } else {
        Seq::empty()
    }
}

/// `MRTR-020`: a round's state is used for its own retry and nothing else: a
/// `requestState` presented on a request of another method than the one that
/// drew it is the finding.
pub fn request_state_scoped_to_retry(context: &TraceContext<'_>, sink: &mut FindingSink)
    ensures
        final(sink).check_id() == old(sink).check_id(),
        final(sink).subject_count() == old(sink).subject_count(),
        entry_seqs(final(sink).found()) == entry_seqs(old(sink).found())
            + sites(context.trace(), |e: TraceEvent| scoped_site(context.trace(), context.pairs(), e)),
        entry_views(final(sink).found()) == entry_views(old(sink).found())
            + entries(context.trace(), |e: TraceEvent| scoped_entry(context.trace(), context.pairs(), e)),
{
    let ghost events = context.trace();
    let ghost pairs = context.pairs();
    let ghost f = |e: TraceEvent| scoped_site(events, pairs, e);
    let ghost h = |e: TraceEvent| scoped_entry(events, pairs, e);
    let issued = issued_states(context);
    let n = context.len();
    let mut i: usize = 0;
    while i < n
        invariant
            n == events.len(),
            events == context.trace(),
            pairs == context.pairs(),
            issued_views(issued@) == issued_list(events, exchange_ixs(events, pairs, None, events.len() as nat)),
            i <= n,
            f == (|e: TraceEvent| scoped_site(events, pairs, e)),
            h == (|e: TraceEvent| scoped_entry(events, pairs, e)),
            sink.check_id() == old(sink).check_id(),
            sink.subject_count() == old(sink).subject_count(),
            entry_seqs(sink.found()) == entry_seqs(old(sink).found()) + sites(events.take(i as int), f),
            entry_views(sink.found()) == entry_views(old(sink).found()) + entries(events.take(i as int), h),
        decreases n - i,
    {
        proof { lemma_sites_take(events, f, i as int); lemma_entries_take(events, h, i as int); }
        if let Some((_id, method, params)) = retry_at(context, i) {
            if let Some(state) = params.get("requestState") {
                let text = state.to_text();
                if let Some(origin) = lookup_method(&issued, text.as_str()) {
                    if !text_eq(method, origin) {
                        let mut d = owned("`");
                        push_text(&mut d, method);
                        push_text(&mut d, "` carries the `requestState` issued for a `");
                        push_text(&mut d, origin);
                        push_text(&mut d, "` request; it affects only that request's retry");
                        sink.push(Some(context.event(i).seq), d);
                    }
                }
            }
        }
        i = i + 1;
    }
    proof { lemma_sites_all(events, f); lemma_entries_all(events, h); }
}

/// `MRTR-024`: a shortfall draws another `input_required`, not an error: a
/// retry that left asked-for input unanswered and drew an error is the finding.
pub fn missing_input_reasked(context: &TraceContext<'_>, sink: &mut FindingSink)
    ensures
        final(sink).check_id() == old(sink).check_id(),
        final(sink).subject_count() == old(sink).subject_count(),
        entry_seqs(final(sink).found()) == entry_seqs(old(sink).found()) + xsites(
            exchange_ixs(context.trace(), context.pairs(), None, context.trace().len() as nat),
            |x: (int, int)| reasked_site(context.trace(), context.pairs(), x)),
{
    let ghost events = context.trace();
    let ghost pairs = context.pairs();
    let ghost f = |x: (int, int)| reasked_site(events, pairs, x);
    let latest = latest_rounds(context);
    let n = context.len();
    let mut j: usize = 0;
    while j < n
        invariant
            n == events.len(),
            events == context.trace(),
            pairs == context.pairs(),
            latest@.len() == n,
            forall|k: int| 0 <= k < latest@.len() ==> match #[trigger] latest@[k] {
                Some((a, b)) => latest_before(events, pairs, k as nat) == Some((a as int, b as int)) && a < b && b < k,
                None => latest_before(events, pairs, k as nat) is None,
            },
            j <= n,
            f == (|x: (int, int)| reasked_site(events, pairs, x)),
            sink.check_id() == old(sink).check_id(),
            sink.subject_count() == old(sink).subject_count(),
            entry_seqs(sink.found()) == entry_seqs(old(sink).found()) + xsites(exchange_ixs(events, pairs, None, j as nat), f),
        decreases n - j,
    {
        let ghost before = entry_seqs(sink.found());
        let ghost prev = exchange_ixs(events, pairs, None, j as nat);
        if let Some(r) = context.paired(j) {
            assert(exchange_ixs(events, pairs, None, (j + 1) as nat) == prev.push((r as int, j as int)));
            assert(prev.push((r as int, j as int)).drop_last() =~= prev);
            if let Some((_id, _method, params)) = retry_at(context, r) {
                let response = context.event(j);
                let has_result = response.message_payload().unwrap().get("result").is_some();
                if !has_result {
                    if let Some((a, b)) = latest[r] {
                        proof { lemma_latest(events, pairs, r as nat); }
                        if let Some(requests) = requests_of(context, a, b) {
                            let responses = responses_of(params);
                            let missing = missing_keys(requests, responses);
                            if missing.len() > 0 {
                                let mut d = owned("the retry omitted ");
                                let mut q: usize = 0;
                                while q < missing.len()
                                    decreases missing@.len() - q,
                                {
                                    if q > 0 {
                                        push_text(&mut d, ", ");
                                    }
                                    push_text(&mut d, "`");
                                    push_text(&mut d, missing[q].as_str());
                                    push_text(&mut d, "`");
                                    q = q + 1;
                                }
                                push_text(&mut d, " that the `input_required` at seq ");
                                let t = u64_text(context.event(b).seq);
                                push_text(&mut d, t.as_str());
                                push_text(&mut d, " asked for, and the server answered with an error rather than asking again");
                                sink.push(Some(response.seq), d);
                            }
                        }
                    }
                }
            }
            assert(entry_seqs(sink.found()) =~= before + f((r as int, j as int)));
        }
        j = j + 1;
    }
    assert(exchange_ixs(events, pairs, None, n as nat) == exchange_ixs(events, pairs, None, events.len() as nat));
}

} // verus!
