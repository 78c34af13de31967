//! `subscriptions/listen`: the long-lived notification stream.
//!
//! Every message belonging to a subscription carries the listen request's own
//! JSON-RPC id in `_meta.io.modelcontextprotocol/subscriptionId`; these checks
//! correlate on that field and nothing else, since other subscriptions'
//! messages may interleave.

use vstd::prelude::*;
use crate::checks::after_counting;
use crate::checks::sites::{tally, xtally, lemma_tally_take, lemma_xtally_take, lemma_tally_all, lemma_xtally_all};
use crate::checks::{FindingSink, entry_seqs};
use crate::checks::sites::{sites, lemma_sites_take, lemma_sites_all, xsites, lemma_xsites_take, lemma_xsites_all};
use crate::checks::caching::x_result;
use crate::context::{TraceContext, exchange_ixs, exchanges_are};
use crate::json::{Json, json_text};
use crate::text::{owned, push_text, text_eq, debug_text, debug_quoted, contains_text, texts};
use crate::trace::{Direction, TraceEvent};

verus! {

/// Whether `e` is a client `subscriptions/listen` request with a non-null id.
pub open spec fn is_listen(e: TraceEvent) -> bool {
    &&& e.direction == Direction::ClientToServer
    &&& e.payload() matches Some(p)
    &&& p.at("method"@) matches Some(m)
    &&& m.text() == Some("subscriptions/listen"@)
    &&& p.at("id"@) matches Some(id)
    &&& !(id is Null)
}

/// A listen request's id text.
pub open spec fn listen_id(e: TraceEvent) -> Seq<char> {
    json_text(e.payload().unwrap().at("id"@).unwrap())
}

/// A listen request's `notifications` filter, when it is an object.
pub open spec fn listen_filter(e: TraceEvent) -> Option<Json> {
    match e.payload().unwrap().at("params"@) {
        Some(params) => match params.at("notifications"@) {
            Some(f) => if f is Object { Some(f) } else { None },
            None => None,
        },
        None => None,
    }
}

/// The listen requests of a trace, as (id text, seq, filter), in order.
pub open spec fn listen_list(events: Seq<TraceEvent>) -> Seq<(Seq<char>, u64, Option<Json>)>
    decreases events.len(),
{
    if events.len() == 0 {
        Seq::empty()
    } else if is_listen(events.last()) {
        listen_list(events.drop_last()).push((listen_id(events.last()), events.last().seq, listen_filter(events.last())))
    } else {
        listen_list(events.drop_last())
    }
}

/// The subscription recorded last for id text `t`, as (seq, filter).
pub open spec fn last_listen(list: Seq<(Seq<char>, u64, Option<Json>)>, t: Seq<char>) -> Option<(u64, Option<Json>)>
    decreases list.len(),
{
    if list.len() == 0 {
        None
    } else if list.last().0 == t {
        Some((list.last().1, list.last().2))
    } else {
        last_listen(list.drop_last(), t)
    }
}

/// The member a server message's subscription tag sits under: `params`, or
/// `result` when there are no `params`.
pub open spec fn tag_holder(p: Json) -> Option<Json> {
    match p.at("params"@) {
        Some(x) => Some(x),
        None => p.at("result"@),
    }
}

/// The subscription id a server message is tagged with.
pub open spec fn tag_of(e: TraceEvent) -> Option<Json> {
    if e.direction == Direction::ServerToClient && e.payload() is Some {
        match tag_holder(e.payload().unwrap()) {
            Some(holder) => match holder.at("_meta"@) {
                Some(meta) => meta.at("io.modelcontextprotocol/subscriptionId"@),
                None => None,
            },
            None => None,
        }
    } else {
        None
    }
}

/// The method text of a message, when it has one.
pub open spec fn method_text(e: TraceEvent) -> Option<Seq<char>> {
    match e.payload().unwrap().at("method"@) {
        Some(m) => m.text(),
        None => None,
    }
}

/// The filter field that requests a notification type.
pub open spec fn filter_field(m: Seq<char>) -> Option<Seq<char>> {
    if m == "notifications/tools/list_changed"@ {
        Some("toolsListChanged"@)
    } else if m == "notifications/prompts/list_changed"@ {
        Some("promptsListChanged"@)
    } else if m == "notifications/resources/list_changed"@ {
        Some("resourcesListChanged"@)
    } else {
        None
    }
}

/// Whether a list of values holds the string `uri`.
pub open spec fn lists_uri(uris: Seq<Json>, uri: Seq<char>) -> bool {
    exists|i: int| 0 <= i < uris.len() && #[trigger] uris[i].text() == Some(uri)
}

/// The URI a `notifications/resources/updated` names (empty when none).
pub open spec fn updated_uri(params: Json) -> Seq<char> {
    match params.at("uri"@) {
        Some(u) => u.text().unwrap_or(Seq::empty()),
        None => Seq::empty(),
    }
}

/// Whether `filter` did not request notification `m` with `params`: a filter
/// field set to `true` requests its type; `resourceSubscriptions` lists the URIs
/// whose updates were requested; every other type is outside the vocabulary.
pub open spec fn unrequested(filter: Option<Json>, m: Seq<char>, params: Json) -> bool {
    match filter_field(m) {
        Some(field) => !(filter matches Some(f) && f.at(field) == Some(Json::Bool(true))),
        None => if m == "notifications/resources/updated"@ {
            !(filter matches Some(f) && f.at("resourceSubscriptions"@) matches Some(Json::Array(uris))
                && lists_uri(uris@, updated_uri(params)))
        } else {
            true
        },
    }
}

/// A notification on a subscription that its filter did not request.
pub open spec fn unrequested_site(events: Seq<TraceEvent>, e: TraceEvent) -> Seq<Option<u64>> {
    match tag_of(e) {
        Some(id) => match method_text(e) {
            Some(m) => match last_listen(listen_list(events), json_text(id)) {
                Some(sub) => if m != "notifications/subscriptions/acknowledged"@
                    && unrequested(sub.1, m, tag_holder(e.payload().unwrap()).unwrap()) {
                    seq![Some(e.seq)]
                } else {
                    Seq::empty()
                },
                None => Seq::empty(),
            },
            None => Seq::empty(),
        },
        None => Seq::empty(),
    }
}

/// One subject per tagged message, other than an acknowledgment, on a
/// subscription a listen request opened.
pub open spec fn tagged_subject(events: Seq<TraceEvent>, e: TraceEvent) -> nat {
    match tag_of(e) {
        Some(id) => match method_text(e) {
            Some(m) => match last_listen(listen_list(events), json_text(id)) {
                Some(sub) => if m != "notifications/subscriptions/acknowledged"@ { 1 } else { 0 },
                None => 0,
            },
            None => 0,
        },
        None => 0,
    }
}

/// One subject per listen response answered with an object result.
pub open spec fn close_subject(events: Seq<TraceEvent>, x: (int, int)) -> nat {
    match x_result(events, x.1) {
        Some(Json::Object(members)) => 1,
        _ => 0,
    }
}

/// The views of (id text, seq, filter) entries.
pub open spec fn listen_views(v: Seq<(String, u64, Option<&Json>)>) -> Seq<(Seq<char>, u64, Option<Json>)> {
    v.map_values(|x: (String, u64, Option<&Json>)| (x.0@, x.1, match x.2 { Some(f) => Some(*f), None => None }))
}

fn listens<'a>(context: &TraceContext<'a>) -> (r: Vec<(String, u64, Option<&'a Json>)>)
    ensures
        listen_views(r@) == listen_list(context.trace()),
{
    let ghost events = context.trace();
    let n = context.len();
    let mut out: Vec<(String, u64, Option<&'a Json>)> = Vec::new();
    let mut i: usize = 0;
    proof { reveal_strlit("subscriptions/listen"); }
    while i < n
        invariant
            n == events.len(),
            events == context.trace(),
            i <= n,
            listen_views(out@) == listen_list(events.take(i as int)),
        decreases n - i,
    {
        proof { assert(events.take(i + 1).drop_last() =~= events.take(i as int)); }
        let event = context.event(i);
        if event.direction == Direction::ClientToServer {
            if let Some(p) = event.message_payload() {
                let named = match p.get("method") {
                    Some(m) => match m.as_str() {
                        Some(s) => text_eq(s, "subscriptions/listen"),
                        None => false,
                    },
                    None => false,
                };
                if named {
                    if let Some(id) = p.get("id") {
                        if !id.is_null() {
                            let filter = match p.get("params") {
                                Some(params) => match params.get("notifications") {
                                    Some(f) => if f.is_object() { Some(f) } else { None },
                                    None => None,
                                },
                                None => None,
                            };
                            out.push((id.to_text(), event.seq, filter));
                        }
                    }
                }
            }
        }
        assert(listen_views(out@) =~= listen_list(events.take(i + 1)));
        i = i + 1;
    }
    assert(events.take(n as int) =~= events);
    out
}

fn lookup_listen<'a>(list: &Vec<(String, u64, Option<&'a Json>)>, t: &str) -> (r: Option<(u64, Option<&'a Json>)>)
    ensures
        match r {
            Some((s, f)) => last_listen(listen_views(list@), t@) == Some((s, match f { Some(v) => Some(*v), None => None })),
            None => last_listen(listen_views(list@), t@) is None,
        },
{
    let ghost views = listen_views(list@);
    let mut i = list.len();
    assert(views.take(i as int) =~= views);
    while i > 0
        invariant
            i <= list@.len(),
            views == listen_views(list@),
            last_listen(views, t@) == last_listen(views.take(i as int), t@),
        decreases i,
    {
        i = i - 1;
        proof {
            assert(views.take(i + 1).drop_last() =~= views.take(i as int));
            assert(views.take(i + 1).last() == views[i as int]);
        }
        if text_eq(list[i].0.as_str(), t) {
            return Some((list[i].1, list[i].2));
        }
    }
    None
}

/// The subscription tag of the server message at `i`: (id, holder).
fn tagged_at<'a>(context: &TraceContext<'a>, i: usize) -> (r: Option<(&'a Json, &'a Json)>)
    requires
        i < context.trace().len(),
    ensures
        match r {
            Some((id, holder)) => tag_of(context.trace()[i as int]) == Some(*id)
                && tag_holder(context.trace()[i as int].payload().unwrap()) == Some(*holder),
            None => tag_of(context.trace()[i as int]) is None,
        },
{
    let event = context.event(i);
    if event.direction != Direction::ServerToClient {
        return None;
    }
    let p = match event.message_payload() {
        Some(p) => p,
        None => return None,
    };
    let holder = match p.get("params") {
        Some(x) => x,
        None => match p.get("result") {
            Some(x) => x,
            None => return None,
        },
    };
    let id = match holder.get("_meta") {
        Some(meta) => meta.get("io.modelcontextprotocol/subscriptionId"),
        None => None,
    };
    match id {
        Some(id) => Some((id, holder)),
        None => None,
    }
}

fn field_for(m: &str) -> (r: Option<&'static str>)
    ensures
        match r {
            Some(f) => filter_field(m@) == Some(f@),
            None => filter_field(m@) is None,
        },
{
    if text_eq(m, "notifications/tools/list_changed") {
        Some("toolsListChanged")
    } else if text_eq(m, "notifications/prompts/list_changed") {
        Some("promptsListChanged")
    } else if text_eq(m, "notifications/resources/list_changed") {
        Some("resourcesListChanged")
    } else {
        None
    }
}

/// Why `filter` did not request `m`, or `None` when it did.
fn unrequested_reason(filter: Option<&Json>, m: &str, params: &Json) -> (r: Option<String>)
    ensures
        r is Some <==> unrequested(match filter { Some(f) => Some(*f), None => None }, m@, *params),
{
    proof { reveal_strlit("notifications/resources/updated"); reveal_strlit(""); }
    if let Some(field) = field_for(m) {
        let asked = match filter {
            Some(f) => match f.get(field) {
                Some(v) => match v {
                    Json::Bool(b) => *b,
                    _ => false,
                },
                None => false,
            },
            None => false,
        };
        if asked {
            return None;
        }
        let mut d = owned("its filter did not set `");
        push_text(&mut d, field);
        push_text(&mut d, "`");
        return Some(d);
    }
    if text_eq(m, "notifications/resources/updated") {
        let uri: &str = match params.get("uri") {
            Some(u) => match u.as_str() {
                Some(s) => s,
                None => "",
            },
            None => "",
        };
        assert(uri@ == updated_uri(*params));
        let uris = match filter {
            Some(f) => match f.get("resourceSubscriptions") {
                Some(Json::Array(items)) => Some(items),
                _ => None,
            },
            None => None,
        };
        let mut listed = false;
        if let Some(items) = uris {
            let mut k: usize = 0;
            while k < items.len()
                invariant
                    k <= items@.len(),
                    !listed ==> forall|q: int| 0 <= q < k ==> #[trigger] items@[q].text() != Some(uri@),
                    listed ==> lists_uri(items@, uri@),
                decreases items@.len() - k,
            {
                let hit = match items[k].as_str() {
                    Some(s) => text_eq(s, uri),
                    None => false,
                };
                if hit {
                    assert(items@[k as int].text() == Some(uri@));
                    listed = true;
                }
                k = k + 1;
            }
        }
        if listed {
            return None;
        }
        let mut d = owned("its `resourceSubscriptions` does not list the URI ");
        let q = debug_text(uri);
        push_text(&mut d, q.as_str());
        return Some(d);
    }
    Some(owned("is not one of the notification types the filter can request"))
}

/// `SUBS-001`: only the notification types the filter asked for. An absent
/// filter field is a type not subscribed to.
pub fn only_requested_notifications(context: &TraceContext<'_>, sink: &mut FindingSink)
    ensures
        final(sink).check_id() == old(sink).check_id(),
        final(sink).subject_count() == after_counting(old(sink).subject_count(),
            tally(context.trace(), |e: TraceEvent| tagged_subject(context.trace(), e)) as int),
        entry_seqs(final(sink).found()) == entry_seqs(old(sink).found())
            + sites(context.trace(), |e: TraceEvent| unrequested_site(context.trace(), e)),
{
    sink.examined_many(0);
    let ghost events = context.trace();
    let ghost f = |e: TraceEvent| unrequested_site(events, e);
    let subs = listens(context);
    let n = context.len();
    let ghost g = |e: TraceEvent| tagged_subject(events, e);
    let mut i: usize = 0;
    proof { reveal_strlit("notifications/subscriptions/acknowledged"); }
    while i < n
        invariant
            n == events.len(),
            events == context.trace(),
            listen_views(subs@) == listen_list(events),
            i <= n,
            f == (|e: TraceEvent| unrequested_site(events, e)),
            sink.check_id() == old(sink).check_id(),
            g == (|e: TraceEvent| tagged_subject(events, e)),
            sink.subject_count() == after_counting(old(sink).subject_count(), tally(events.take(i as int), g) as int),
            entry_seqs(sink.found()) == entry_seqs(old(sink).found()) + sites(events.take(i as int), f),
        decreases n - i,
    {
        proof { lemma_sites_take(events, f, i as int); lemma_tally_take(events, g, i as int); }
        if let Some((id, holder)) = tagged_at(context, i) {
            let event = context.event(i);
            let method = match event.message_payload().unwrap().get("method") {
                Some(m) => m.as_str(),
                None => None,
            };
            if let Some(method) = method {
                let text = id.to_text();
                if let Some((_, filter)) = lookup_listen(&subs, text.as_str()) {
                    if !text_eq(method, "notifications/subscriptions/acknowledged") {
                        sink.examined();
                        if let Some(reason) = unrequested_reason(filter, method, holder) {
                            let mut d = owned("subscription ");
                            push_text(&mut d, text.as_str());
                            push_text(&mut d, " was sent `");
                            push_text(&mut d, method);
                            push_text(&mut d, "`, which ");
                            push_text(&mut d, reason.as_str());
                            sink.push(Some(event.seq), d);
                        }
                    }
                }
            }
        }
        i = i + 1;
    }
    proof { lemma_sites_all(events, f); lemma_tally_all(events, g); }
}

/// Whether the event opens a subscription: a listen request that is the last
/// one recorded with its id.
pub open spec fn opens(events: Seq<TraceEvent>, e: TraceEvent) -> bool {
    &&& is_listen(e)
    &&& last_listen(listen_list(events), listen_id(e)) matches Some(sub)
    &&& sub.0 == e.seq
}

/// The state of the acknowledgment walk: subscriptions opened, subscriptions
/// decided, and findings.
pub struct AckWalk {
    pub open: Seq<Seq<char>>,
    pub decided: Seq<Seq<char>>,
    pub found: Seq<Option<u64>>,
}

/// One step: an opening listen request opens its id; a subscription's first
/// tagged message after it opened decides it, and is a finding unless it is
/// the acknowledgment.
pub open spec fn ack_step(events: Seq<TraceEvent>, w: AckWalk, e: TraceEvent) -> AckWalk {
    if opens(events, e) {
        AckWalk { open: w.open.push(listen_id(e)), ..w }
    } else {
        match tag_of(e) {
            Some(id) => if w.open.contains(json_text(id)) && !w.decided.contains(json_text(id)) {
                AckWalk {
                    decided: w.decided.push(json_text(id)),
                    found: if method_text(e) == Some("notifications/subscriptions/acknowledged"@) {
                        w.found
                    } else {
                        w.found.push(Some(e.seq))
                    },
                    ..w
                }
            } else {
                w
            },
            None => w,
        }
    }
}

/// The walk over the first `n` events.
pub open spec fn ack_walk(events: Seq<TraceEvent>, n: nat) -> AckWalk
    decreases n,
{
    if n == 0 {
        AckWalk { open: Seq::empty(), decided: Seq::empty(), found: Seq::empty() }
    } else {
        ack_step(events, ack_walk(events, (n - 1) as nat), events[n - 1])
    }
}

/// `SUBS-002`: the acknowledgment is a subscription's first message, judged
/// per subscription id; a subscription with no tagged message is undecided.
pub fn acknowledgment_first(context: &TraceContext<'_>, sink: &mut FindingSink)
    ensures
        final(sink).check_id() == old(sink).check_id(),
        entry_seqs(final(sink).found()) == entry_seqs(old(sink).found())
            + ack_walk(context.trace(), context.trace().len() as nat).found,
        final(sink).subject_count() == crate::checks::after_counting(old(sink).subject_count(),
            ack_walk(context.trace(), context.trace().len() as nat).decided.len() as int),
{
    sink.examined_many(0);
    let ghost events = context.trace();
    let subs = listens(context);
    let n = context.len();
    let mut open: Vec<String> = Vec::new();
    let mut decided: Vec<String> = Vec::new();
    let mut i: usize = 0;
    proof { reveal_strlit("notifications/subscriptions/acknowledged"); reveal_strlit("subscriptions/listen"); }
    while i < n
        invariant
            n == events.len(),
            events == context.trace(),
            listen_views(subs@) == listen_list(events),
            i <= n,
            texts(open@) == ack_walk(events, i as nat).open,
            texts(decided@) == ack_walk(events, i as nat).decided,
            sink.check_id() == old(sink).check_id(),
            entry_seqs(sink.found()) == entry_seqs(old(sink).found()) + ack_walk(events, i as nat).found,
            sink.subject_count() == crate::checks::after_counting(old(sink).subject_count(), ack_walk(events, i as nat).decided.len() as int),
        decreases n - i,
    {
        let event = context.event(i);
        let ghost w = ack_walk(events, i as nat);
        let mut opened = false;
        if event.direction == Direction::ClientToServer {
            if let Some(p) = event.message_payload() {
                let named = match p.get("method") {
                    Some(m) => match m.as_str() {
                        Some(s) => text_eq(s, "subscriptions/listen"),
                        None => false,
                    },
                    None => false,
                };
                if named {
                    if let Some(id) = p.get("id") {
                        if !id.is_null() {
                            let text = id.to_text();
                            if let Some((seq, _)) = lookup_listen(&subs, text.as_str()) {
                                if seq == event.seq {
                                    opened = true;
                                    open.push(text);
                                    assert(texts(open@) =~= w.open.push(listen_id(*event)));
                                }
                            }
                        }
                    }
                }
            }
        }
        assert(opened == opens(events, *event));
        if !opened {
            if let Some((id, _)) = tagged_at(context, i) {
                let text = id.to_text();
                if contains_text(&open, text.as_str()) && !contains_text(&decided, text.as_str()) {
                    let method = match event.message_payload().unwrap().get("method") {
                        Some(m) => m.as_str(),
                        None => None,
                    };
                    match method {
                        Some(m) => if !text_eq(m, "notifications/subscriptions/acknowledged") {
                            let mut d = owned("subscription ");
                            push_text(&mut d, text.as_str());
                            push_text(&mut d, " opened with `");
                            push_text(&mut d, m);
                            push_text(&mut d, "`; `notifications/subscriptions/acknowledged` must be its first message");
                            sink.push(Some(event.seq), d);
                        },
                        None => {
                            let mut d = owned("subscription ");
                            push_text(&mut d, text.as_str());
                            push_text(&mut d, " was closed by its `subscriptions/listen` response before any `notifications/subscriptions/acknowledged` was sent");
                            sink.push(Some(event.seq), d);
                        },
                    }
                    sink.examined();
                    let ghost before = decided@;
                    let ghost tv = text@;
                    decided.push(text);
                    assert(texts(decided@) =~= texts(before).push(tv));
                }
            }
        }
        assert(events.take(i + 1).drop_last() =~= events.take(i as int));
        i = i + 1;
    }
}

/// The members of a listen response's result beyond `resultType` and `_meta`.
pub open spec fn extra_members(members: Seq<(String, Json)>) -> Seq<Seq<char>>
    decreases members.len(),
{
    if members.len() == 0 {
        Seq::empty()
    } else {
        let k = members.last().0@;
        if k != "resultType"@ && k != "_meta"@ {
            extra_members(members.drop_last()).push(k)
        } else {
            extra_members(members.drop_last())
        }
    }
}

/// A listen response whose result carries more than an empty closure does.
pub open spec fn close_site(events: Seq<TraceEvent>, x: (int, int)) -> Seq<Option<u64>> {
    match x_result(events, x.1) {
        Some(Json::Object(members)) => if extra_members(members@).len() > 0 {
            seq![Some(events[x.1].seq)]
        } else {
            Seq::empty()
        },
        _ => Seq::empty(),
    }
}

/// `SUBS-005`/`SUBS-006`: a graceful closure's result is empty: nothing beyond
/// `resultType` and the `_meta` naming the subscription.
pub fn graceful_close_result_empty(context: &TraceContext<'_>, sink: &mut FindingSink)
    ensures
        final(sink).check_id() == old(sink).check_id(),
        final(sink).subject_count() == after_counting(old(sink).subject_count(),
            xtally(exchange_ixs(context.trace(), context.pairs(), Some("subscriptions/listen"@), context.trace().len() as nat), |x: (int, int)| close_subject(context.trace(), x)) as int),
        entry_seqs(final(sink).found()) == entry_seqs(old(sink).found()) + xsites(
            exchange_ixs(context.trace(), context.pairs(), Some("subscriptions/listen"@), context.trace().len() as nat),
            |x: (int, int)| close_site(context.trace(), x)),
{
    sink.examined_many(0);
    let exchanges = context.exchanges_for("subscriptions/listen");
    let ghost events = context.trace();
    let ghost ixs = exchange_ixs(context.trace(), context.pairs(), Some("subscriptions/listen"@), context.trace().len() as nat);
    let ghost f = |x: (int, int)| close_site(events, x);
    let ghost g = |x: (int, int)| close_subject(events, x);
    let mut k: usize = 0;
    proof { reveal_strlit("resultType"); reveal_strlit("_meta"); }
    while k < exchanges.len()
        invariant
            k <= exchanges@.len(),
            exchanges_are(exchanges@, events, ixs),
            f == (|x: (int, int)| close_site(events, x)),
            sink.check_id() == old(sink).check_id(),
            g == (|x: (int, int)| close_subject(events, x)),
            sink.subject_count() == after_counting(old(sink).subject_count(), xtally(ixs.take(k as int), g) as int),
            entry_seqs(sink.found()) == entry_seqs(old(sink).found()) + xsites(ixs.take(k as int), f),
        decreases exchanges@.len() - k,
    {
        proof { lemma_xsites_take(ixs, f, k as int); lemma_xtally_take(ixs, g, k as int); }
        let exchange = &exchanges[k];
        assert(*exchange.request == events[ixs[k as int].0]);
        let members = match exchange.result {
            Some(Json::Object(m)) => Some(m),
            _ => None,
        };
        if let Some(members) = members {
            sink.examined();
            let mut extra: Vec<String> = Vec::new();
            let mut q: usize = 0;
            while q < members.len()
                invariant
                    q <= members@.len(),
                    texts(extra@) == extra_members(members@.take(q as int)),
                decreases members@.len() - q,
            {
                proof { assert(members@.take(q + 1).drop_last() =~= members@.take(q as int)); }
                let key = members[q].0.as_str();
                if !text_eq(key, "resultType") && !text_eq(key, "_meta") {
                    let ghost before = extra@;
                    extra.push(owned(key));
                    assert(texts(extra@) =~= texts(before).push(key@));
                }
                q = q + 1;
            }
            assert(members@.take(members@.len() as int) =~= members@);
            if extra.len() > 0 {
                let mut d = owned("the `subscriptions/listen` response carries ");
                let mut q: usize = 0;
                while q < extra.len()
                    decreases extra@.len() - q,
                {
                    if q > 0 {
                        push_text(&mut d, ", ");
                    }
                    push_text(&mut d, "`");
                    push_text(&mut d, extra[q].as_str());
                    push_text(&mut d, "`");
                    q = q + 1;
                }
                push_text(&mut d, "; a graceful closure's result is empty");
                sink.push(Some(exchange.response.seq), d);
            }
        }
        k = k + 1;
    }
    proof { lemma_xsites_all(ixs, f); lemma_xtally_all(ixs, g); }
}

} // verus!
