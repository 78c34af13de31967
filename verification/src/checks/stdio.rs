//! The `2026-07-28` stdio binding's own clauses: cancellation by notification.
//!
//! stdio has no per-request stream to close, so where Streamable HTTP signals
//! cancellation by closing the response stream, stdio signals it with
//! `notifications/cancelled`. The two are one protocol rule reached by
//! different evidence, so they are separate checks.

use vstd::prelude::*;
use crate::checks::after_counting;
use crate::checks::sites::{tally, xtally, lemma_tally_take, lemma_xtally_take, lemma_tally_all, lemma_xtally_all};
use crate::checks::{FindingSink, entry_seqs};
use crate::checks::sites::{sites, lemma_sites_take, lemma_sites_all};
use crate::context::TraceContext;
use crate::json::{Json, json_text};
use crate::text::{owned, push_text, text_eq, u64_text, text_before, precedes};
use crate::trace::{Direction, TraceEvent};

verus! {

/// Whether a member is present and not `null`.
pub open spec fn live(v: Option<Json>) -> bool {
    match v {
        Some(j) => !(j is Null),
        None => false,
    }
}

/// The method of a client notification: a client message with no live `id`
/// and a string `method`.
pub open spec fn notification_method(e: TraceEvent) -> Option<Seq<char>> {
    if e.direction == Direction::ClientToServer && e.payload() is Some
        && !live(e.payload().unwrap().at("id"@)) {
        match e.payload().unwrap().at("method"@) {
            Some(m) => m.text(),
            None => None,
        }
    } else {
        None
    }
}

/// The live `params.requestId` a message names.
pub open spec fn named_request(p: Json) -> Option<Json> {
    match p.at("params"@) {
        Some(params) => match params.at("requestId"@) {
            Some(id) => if id is Null { None } else { Some(id) },
            None => None,
        },
        None => None,
    }
}

/// Whether `e` is a client `notifications/cancelled`.
pub open spec fn is_cancel(e: TraceEvent) -> bool {
    notification_method(e) == Some("notifications/cancelled"@)
}

/// A client cancellation that names no request.
pub open spec fn unnamed_cancel_site(e: TraceEvent) -> Seq<Option<u64>> {
    if is_cancel(e) && named_request(e.payload().unwrap()) is None {
        seq![Some(e.seq)]
    } else {
        Seq::empty()
    }
}

/// One subject per client cancellation notification.
pub open spec fn cancel_subject(e: TraceEvent) -> nat {
    if is_cancel(e) { 1 } else { 0 }
}

/// The method and payload of a client notification.
fn client_notification(event: &TraceEvent) -> (r: Option<(&str, &Json)>)
    ensures
        r matches Some((m, p)) ==> notification_method(*event) == Some(m@) && event.payload() == Some(*p),
        r is None ==> notification_method(*event) is None,
{
    if event.direction != Direction::ClientToServer {
        return None;
    }
    let payload = match event.message_payload() {
        Some(p) => p,
        None => return None,
    };
    let has_id = match payload.get("id") {
        Some(id) => !id.is_null(),
        None => false,
    };
    if has_id {
        return None;
    }
    match payload.get("method") {
        Some(m) => match m.as_str() {
            Some(s) => Some((s, payload)),
            None => None,
        },
        None => None,
    }
}

/// The live `params.requestId` of `p`.
fn request_named(p: &Json) -> (r: Option<&Json>)
    ensures
        r matches Some(id) ==> named_request(*p) == Some(*id),
        r is None ==> named_request(*p) is None,
{
    match p.get("params") {
        Some(params) => match params.get("requestId") {
            Some(id) => if id.is_null() { None } else { Some(id) },
            None => None,
        },
        None => None,
    }
}

/// `TRAN-123`: a cancellation names the request it cancels. Only the shape is
/// judged: whether the named id was still in flight is not, since a recording
/// may begin mid-session.
pub fn cancel_notification_references_request(context: &TraceContext<'_>, sink: &mut FindingSink)
    ensures
        final(sink).check_id() == old(sink).check_id(),
        crate::checks::extends_with(old(sink).found(), final(sink).found(), "`notifications/cancelled` carries no `params.requestId`, so it names no request to cancel"@),
        final(sink).subject_count() == after_counting(old(sink).subject_count(),
            tally(context.trace(), |e: TraceEvent| cancel_subject(e)) as int),
        entry_seqs(final(sink).found()) == entry_seqs(old(sink).found())
            + sites(context.trace(), |e: TraceEvent| unnamed_cancel_site(e)),
{
    sink.examined_many(0);
    let ghost events = context.trace();
    let ghost f = |e: TraceEvent| unnamed_cancel_site(e);
    let n = context.len();
    let ghost g = |e: TraceEvent| cancel_subject(e);
    let mut i: usize = 0;
    while i < n
        invariant
            n == events.len(),
            events == context.trace(),
            i <= n,
            f == (|e: TraceEvent| unnamed_cancel_site(e)),
            sink.check_id() == old(sink).check_id(),
            crate::checks::extends_with(old(sink).found(), sink.found(), "`notifications/cancelled` carries no `params.requestId`, so it names no request to cancel"@),
            g == (|e: TraceEvent| cancel_subject(e)),
            sink.subject_count() == after_counting(old(sink).subject_count(), tally(events.take(i as int), g) as int),
            entry_seqs(sink.found()) == entry_seqs(old(sink).found()) + sites(events.take(i as int), f),
        decreases n - i,
    {
        proof { lemma_sites_take(events, f, i as int); lemma_tally_take(events, g, i as int); }
        let event = context.event(i);
        if let Some((method, payload)) = client_notification(event) {
            if text_eq(method, "notifications/cancelled") {
                sink.examined();
                if request_named(payload).is_none() {
                    sink.push(Some(event.seq), owned(
                        "`notifications/cancelled` carries no `params.requestId`, so it names no request to cancel"));
                }
            }
        }
        i = i + 1;
    }
    proof { lemma_sites_all(events, f); lemma_tally_all(events, g); }
}

/// The first position of `key` in `keys`.
pub open spec fn key_index(keys: Seq<Seq<char>>, key: Seq<char>) -> Option<int>
    decreases keys.len(),
{
    if keys.len() == 0 {
        None
    } else {
        match key_index(keys.drop_last(), key) {
            Some(k) => Some(k),
            None => if keys.last() == key { Some(keys.len() - 1) } else { None },
        }
    }
}

/// A first position found in a prefix is the first position overall.
pub proof fn lemma_key_index_prefix(keys: Seq<Seq<char>>, key: Seq<char>, j: int)
    requires
        0 <= j <= keys.len(),
        key_index(keys.take(j), key) is Some,
    ensures
        key_index(keys, key) == key_index(keys.take(j), key),
    decreases keys.len() - j,
{
    if j == keys.len() {
        assert(keys.take(j) =~= keys);
    } else {
        assert(keys.take(j + 1).drop_last() =~= keys.take(j));
        lemma_key_index_prefix(keys, key, j + 1);
    }
}

/// The keys of a keyed table.
pub open spec fn keys_of<V>(entries: Seq<(Seq<char>, V)>) -> Seq<Seq<char>> {
    entries.map_values(|e: (Seq<char>, V)| e.0)
}

/// `entries` with `key` bound to `value`: in place where it is bound, else
/// appended (a map's insert).
pub open spec fn bind<V>(entries: Seq<(Seq<char>, V)>, key: Seq<char>, value: V) -> Seq<(Seq<char>, V)> {
    match key_index(keys_of(entries), key) {
        Some(k) => entries.update(k, (key, value)),
        None => entries.push((key, value)),
    }
}

/// `entries` with `key` bound to `value` unless it is bound already (a map's
/// `entry(..).or_insert(..)`).
pub open spec fn bind_first<V>(entries: Seq<(Seq<char>, V)>, key: Seq<char>, value: V) -> Seq<(Seq<char>, V)> {
    match key_index(keys_of(entries), key) {
        Some(_) => entries,
        None => entries.push((key, value)),
    }
}

/// The value bound to `key`.
pub open spec fn bound<V>(entries: Seq<(Seq<char>, V)>, key: Seq<char>) -> Option<V> {
    match key_index(keys_of(entries), key) {
        Some(k) => Some(entries[k].1),
        None => None,
    }
}

/// The least id, in character order, whose recorded progress token is `token`.
pub open spec fn holder(entries: Seq<(Seq<char>, Seq<char>)>, token: Seq<char>) -> Option<Seq<char>>
    decreases entries.len(),
{
    if entries.len() == 0 {
        None
    } else {
        let prev = holder(entries.drop_last(), token);
        let id = entries.last().0;
        if entries.last().1 == token {
            match prev {
                Some(p) => if text_before(id, p) { Some(id) } else { prev },
                None => Some(id),
            }
        } else {
            prev
        }
    }
}

/// The `_meta.progressToken` a request opted into.
pub open spec fn progress_token(p: Json) -> Option<Json> {
    match p.at("params"@) {
        Some(params) => match params.at("_meta"@) {
            Some(meta) => meta.at("progressToken"@),
            None => None,
        },
        None => None,
    }
}

/// The id a response answers: no `method`, and a live `id`.
pub open spec fn answered_id(p: Json) -> Option<Seq<char>> {
    if p.at("method"@) is None && live(p.at("id"@)) {
        Some(json_text(p.at("id"@).unwrap()))
    } else {
        None
    }
}

/// The request a `notifications/progress` is for, by the token it carries.
pub open spec fn progressed_id(tokens: Seq<(Seq<char>, Seq<char>)>, p: Json) -> Option<Seq<char>> {
    let is_progress = match p.at("method"@) {
        Some(m) => m.text() == Some("notifications/progress"@),
        None => false,
    };
    if is_progress {
        match p.at("params"@) {
            Some(params) => match params.at("progressToken"@) {
                Some(tok) => holder(tokens, json_text(tok)),
                None => None,
            },
            None => None,
        }
    } else {
        None
    }
}

/// Whether `id` names a cancelled request.
pub open spec fn was_cancelled(cancelled: Seq<(Seq<char>, u64)>, id: Option<Seq<char>>) -> bool {
    match id {
        Some(i) => bound(cancelled, i) is Some,
        None => false,
    }
}

/// The walk's state: progress tokens by request id, cancellations by request
/// id (with the seq of the first), and the findings so far.
pub struct CancelNotes {
    pub tokens: Seq<(Seq<char>, Seq<char>)>,
    pub cancelled: Seq<(Seq<char>, u64)>,
    pub found: Seq<Option<u64>>,
}

/// The findings of one server message: a response, then progress, for a
/// cancelled request.
pub open spec fn late_sites(w: CancelNotes, p: Json, seq: u64) -> Seq<Option<u64>> {
    (if was_cancelled(w.cancelled, answered_id(p)) { seq![Some(seq)] } else { Seq::empty() })
        + (if was_cancelled(w.cancelled, progressed_id(w.tokens, p)) { seq![Some(seq)] } else { Seq::empty() })
}

/// One step of the walk.
pub open spec fn note_step(w: CancelNotes, e: TraceEvent) -> CancelNotes {
    if notification_method(e) is Some {
        if is_cancel(e) && named_request(e.payload().unwrap()) is Some {
            CancelNotes {
                cancelled: bind_first(w.cancelled, json_text(named_request(e.payload().unwrap()).unwrap()), e.seq),
                ..w
            }
        } else {
            w
        }
    } else if e.direction == Direction::ClientToServer {
        match e.payload() {
            Some(p) => if live(p.at("id"@)) && progress_token(p) is Some {
                CancelNotes {
                    tokens: bind(w.tokens, json_text(p.at("id"@).unwrap()), json_text(progress_token(p).unwrap())),
                    ..w
                }
            } else {
                w
            },
            None => w,
        }
    } else if w.cancelled.len() == 0 {
        w
    } else {
        match e.payload() {
            Some(p) => CancelNotes { found: w.found + late_sites(w, p, e.seq), ..w },
            None => w,
        }
    }
}

/// The walk over the first `n` events.
pub open spec fn note_walk(events: Seq<TraceEvent>, n: nat) -> CancelNotes
    decreases n,
{
    if n == 0 {
        CancelNotes { tokens: Seq::empty(), cancelled: Seq::empty(), found: Seq::empty() }
    } else {
        note_step(note_walk(events, (n - 1) as nat), events[n - 1])
    }
}

/// The subjects among the first `n` events: server events after some
/// cancellation was sent.
pub open spec fn note_subjects(events: Seq<TraceEvent>, n: nat) -> nat
    decreases n,
{
    if n == 0 {
        0
    } else {
        let e = events[n - 1];
        note_subjects(events, (n - 1) as nat) + if notification_method(e) is None && e.direction != Direction::ClientToServer
            && note_walk(events, (n - 1) as nat).cancelled.len() > 0 { 1nat } else { 0nat }
    }
}

/// The keys of a table held in a `Vec`.
pub open spec fn names<V>(v: Seq<(String, V)>) -> Seq<Seq<char>> {
    Seq::new(v.len(), |i: int| v[i].0@)
}

/// The token table's contents.
pub open spec fn token_view(v: Seq<(String, String)>) -> Seq<(Seq<char>, Seq<char>)> {
    Seq::new(v.len(), |i: int| (v[i].0@, v[i].1@))
}

/// The cancellation table's contents.
pub open spec fn cancel_view(v: Seq<(String, u64)>) -> Seq<(Seq<char>, u64)> {
    Seq::new(v.len(), |i: int| (v[i].0@, v[i].1))
}

/// The first position of `key` in a table.
pub fn find_key<V>(entries: &Vec<(String, V)>, key: &str) -> (r: Option<usize>)
    ensures
        r matches Some(k) ==> k < entries@.len() && key_index(names(entries@), key@) == Some(k as int),
        r is None ==> key_index(names(entries@), key@) is None,
{
    let ghost keys = names(entries@);
    let mut i: usize = 0;
    while i < entries.len()
        invariant
            keys == names(entries@),
            i <= entries@.len(),
            key_index(keys.take(i as int), key@) is None,
        decreases entries@.len() - i,
    {
        proof { assert(keys.take(i + 1).drop_last() =~= keys.take(i as int)); }
        if text_eq(entries[i].0.as_str(), key) {
            proof { lemma_key_index_prefix(keys, key@, i + 1); }
            return Some(i);
        }
        i = i + 1;
    }
    proof { assert(keys.take(i as int) =~= keys); }
    None
}

/// Binds request `id` to progress `token`.
fn bind_token(tokens: &mut Vec<(String, String)>, id: String, token: String)
    ensures
        token_view(final(tokens)@) == bind(token_view(old(tokens)@), id@, token@),
{
    proof { assert(names(tokens@) =~= keys_of(token_view(tokens@))); }
    let ghost before = token_view(tokens@);
    let ghost (iv, tv) = (id@, token@);
    match find_key(tokens, id.as_str()) {
        Some(k) => {
            tokens.set(k, (id, token));
            assert(token_view(tokens@) =~= before.update(k as int, (iv, tv)));
        },
        None => {
            tokens.push((id, token));
            assert(token_view(tokens@) =~= before.push((iv, tv)));
        },
    }
}

/// Records the first cancellation of request `id`.
fn bind_cancel(cancelled: &mut Vec<(String, u64)>, id: String, seq: u64)
    ensures
        cancel_view(final(cancelled)@) == bind_first(cancel_view(old(cancelled)@), id@, seq),
{
    proof { assert(names(cancelled@) =~= keys_of(cancel_view(cancelled@))); }
    let ghost before = cancel_view(cancelled@);
    let ghost iv = id@;
    match find_key(cancelled, id.as_str()) {
        Some(_) => {},
        None => {
            cancelled.push((id, seq));
            assert(cancel_view(cancelled@) =~= before.push((iv, seq)));
        },
    }
}

/// The seq at which request `id` was cancelled.
fn cancelled_at(cancelled: &Vec<(String, u64)>, id: &str) -> (r: Option<u64>)
    ensures
        r == bound(cancel_view(cancelled@), id@),
{
    proof { assert(names(cancelled@) =~= keys_of(cancel_view(cancelled@))); }
    match find_key(cancelled, id) {
        Some(k) => Some(cancelled[k].1),
        None => None,
    }
}

/// The text of an optional owned text.
pub open spec fn opt_text(o: Option<String>) -> Option<Seq<char>> {
    match o {
        Some(s) => Some(s@),
        None => None,
    }
}

/// The least request id, in character order, that opted into `token`.
fn token_holder(tokens: &Vec<(String, String)>, token: &str) -> (r: Option<String>)
    ensures
        opt_text(r) == holder(token_view(tokens@), token@),
{
    let ghost view = token_view(tokens@);
    let mut best: Option<String> = None;
    let mut i: usize = 0;
    while i < tokens.len()
        invariant
            view == token_view(tokens@),
            i <= tokens@.len(),
            opt_text(best) == holder(view.take(i as int), token@),
        decreases tokens@.len() - i,
    {
        proof {
            assert(view.take(i + 1).drop_last() =~= view.take(i as int));
            assert(view.take(i + 1).last() == (tokens@[i as int].0@, tokens@[i as int].1@));
        }
        if text_eq(tokens[i].1.as_str(), token) {
            let replace = match &best {
                Some(b) => precedes(tokens[i].0.as_str(), b.as_str()),
                None => true,
            };
            if replace {
                best = Some(owned(tokens[i].0.as_str()));
            }
        }
        i = i + 1;
    }
    proof { assert(view.take(i as int) =~= view); }
    best
}

/// Remembers the `_meta.progressToken` a client request opted into.
fn record_progress_token(event: &TraceEvent, tokens: &mut Vec<(String, String)>)
    requires
        event.direction == Direction::ClientToServer,
    ensures
        token_view(final(tokens)@) == (match event.payload() {
            Some(p) => if live(p.at("id"@)) && progress_token(p) is Some {
                bind(token_view(old(tokens)@), json_text(p.at("id"@).unwrap()), json_text(progress_token(p).unwrap()))
            } else {
                token_view(old(tokens)@)
            },
            None => token_view(old(tokens)@),
        }),
{
    let payload = match event.message_payload() {
        Some(p) => p,
        None => return,
    };
    let id = match payload.get("id") {
        Some(id) => if id.is_null() { return } else { id },
        None => return,
    };
    let token = match payload.get("params") {
        Some(params) => match params.get("_meta") {
            Some(meta) => meta.get("progressToken"),
            None => None,
        },
        None => None,
    };
    if let Some(token) = token {
        bind_token(tokens, id.to_text(), token.to_text());
    }
}

/// Reports `what` for request `id` when the client had cancelled it.
fn report_one(id: Option<String>, what: &str, seq: u64, cancelled: &Vec<(String, u64)>, sink: &mut FindingSink)
    ensures
        final(sink).check_id() == old(sink).check_id(),
        final(sink).subject_count() == old(sink).subject_count(),
        entry_seqs(final(sink).found()) == entry_seqs(old(sink).found())
            + (if was_cancelled(cancel_view(cancelled@), opt_text(id)) { seq![Some(seq)] } else { Seq::<Option<u64>>::empty() }),
{
    if let Some(id) = id {
        if let Some(at) = cancelled_at(cancelled, id.as_str()) {
            let mut d = owned("server sent ");
            push_text(&mut d, what);
            push_text(&mut d, " for request ");
            push_text(&mut d, id.as_str());
            push_text(&mut d, ", which the client cancelled at seq ");
            let s = u64_text(at);
            push_text(&mut d, s.as_str());
            sink.push(Some(seq), d);
            assert(entry_seqs(sink.found()) =~= entry_seqs(old(sink).found()) + seq![Some(seq)]);
            return;
        }
    }
    assert(entry_seqs(sink.found()) =~= entry_seqs(old(sink).found()) + Seq::<Option<u64>>::empty());
}

/// Reports a server message that belongs to an already-cancelled request.
fn report_if_cancelled(
    p: &Json,
    seq: u64,
    tokens: &Vec<(String, String)>,
    cancelled: &Vec<(String, u64)>,
    sink: &mut FindingSink,
)
    ensures
        final(sink).check_id() == old(sink).check_id(),
        final(sink).subject_count() == old(sink).subject_count(),
        entry_seqs(final(sink).found()) == entry_seqs(old(sink).found())
            + late_sites(CancelNotes { tokens: token_view(tokens@), cancelled: cancel_view(cancelled@), found: Seq::empty() }, *p, seq),
{
    let answered: Option<String> = if p.get("method").is_none() {
        match p.get("id") {
            Some(id) => if id.is_null() { None } else { Some(id.to_text()) },
            None => None,
        }
    } else {
        None
    };
    let is_progress = match p.get("method") {
        Some(m) => match m.as_str() {
            Some(s) => text_eq(s, "notifications/progress"),
            None => false,
        },
        None => false,
    };
    let progressed: Option<String> = if is_progress {
        match p.get("params") {
            Some(params) => match params.get("progressToken") {
                Some(tok) => {
                    let t = tok.to_text();
                    token_holder(tokens, t.as_str())
                },
                None => None,
            },
            None => None,
        }
    } else {
        None
    };
    let ghost start = entry_seqs(sink.found());
    report_one(answered, "a response", seq, cancelled, sink);
    let ghost middle = entry_seqs(sink.found());
    report_one(progressed, "progress", seq, cancelled, sink);
    assert(entry_seqs(sink.found()) =~= start
        + late_sites(CancelNotes { tokens: token_view(tokens@), cancelled: cancel_view(cancelled@), found: Seq::empty() }, *p, seq));
}

/// `TRAN-124`: nothing further is sent for a request after it is cancelled.
/// A later server message is "for" the cancelled request when it is a response
/// correlated by `id`, or a `notifications/progress` correlated by the
/// `progressToken` the request carried in `_meta` (where several requests
/// opted into one token, the least id in character order is the one meant).
/// Cancellations of ids the trace never opened still bind.
pub fn no_messages_after_cancel_notification(context: &TraceContext<'_>, sink: &mut FindingSink)
    ensures
        final(sink).check_id() == old(sink).check_id(),
        final(sink).subject_count() == crate::checks::after_counting(old(sink).subject_count(),
            note_subjects(context.trace(), context.trace().len() as nat) as int),
        entry_seqs(final(sink).found()) == entry_seqs(old(sink).found())
            + note_walk(context.trace(), context.trace().len() as nat).found,
{
    sink.examined_many(0);
    let ghost events = context.trace();
    let n = context.len();
    let mut tokens: Vec<(String, String)> = Vec::new();
    let mut cancelled: Vec<(String, u64)> = Vec::new();
    let mut i: usize = 0;
    proof {
        assert(token_view(tokens@) =~= Seq::<(Seq<char>, Seq<char>)>::empty());
        assert(cancel_view(cancelled@) =~= Seq::<(Seq<char>, u64)>::empty());
        assert(entry_seqs(sink.found()) =~= entry_seqs(old(sink).found()) + Seq::<Option<u64>>::empty());
    }
    while i < n
        invariant
            n == events.len(),
            events == context.trace(),
            i <= n,
            token_view(tokens@) == note_walk(events, i as nat).tokens,
            cancel_view(cancelled@) == note_walk(events, i as nat).cancelled,
            sink.check_id() == old(sink).check_id(),
            entry_seqs(sink.found()) == entry_seqs(old(sink).found()) + note_walk(events, i as nat).found,
            sink.subject_count() == crate::checks::after_counting(old(sink).subject_count(), note_subjects(events, i as nat) as int),
        decreases n - i,
    {
        let event = context.event(i);
        let ghost w = note_walk(events, i as nat);
        let ghost before = entry_seqs(sink.found());
        match client_notification(event) {
            Some((method, payload)) => {
                if text_eq(method, "notifications/cancelled") {
                    if let Some(id) = request_named(payload) {
                        bind_cancel(&mut cancelled, id.to_text(), event.seq);
                    }
                }
            },
            None => {
                if event.direction == Direction::ClientToServer {
                    record_progress_token(event, &mut tokens);
                } else if cancelled.len() > 0 {
                    sink.examined();
                    if let Some(p) = event.message_payload() {
                        report_if_cancelled(p, event.seq, &tokens, &cancelled, sink);
                        assert(entry_seqs(sink.found()) =~= entry_seqs(old(sink).found())
                            + (w.found + late_sites(w, *p, event.seq)));
                    }
                }
            },
        }
        i = i + 1;
    }
}

} // verus!
