//! What protocol revision a session says it is, read from the session itself.
//!
//! Every revision states its own version on the wire, and a recording carries
//! it: in the `initialize` request's and result's `protocolVersion`, in a
//! request's `_meta` `io.modelcontextprotocol/protocolVersion`, and in the
//! `MCP-Protocol-Version` HTTP header. A request the other end answered with a
//! JSON-RPC error states nothing (it named a version and was told no), and
//! its own header falls with it. Only well-formed `YYYY-MM-DD` values count.

use vstd::prelude::*;
use crate::checks::transport::{header_value, get_header};
use crate::json::{Json, json_text};
use crate::revision::{ProtocolRevision, revision_date, revision_text};
use crate::text::{owned, push_text, text_eq, texts, contains_text, text_before, precedes,
    lemma_before_irreflexive, lemma_before_asymmetric, lemma_before_total, lemma_before_transitive};
use crate::trace::{EventBody, TraceEvent};

verus! {

/// The id text of a response carrying an `error` and an `id`.
pub open spec fn refused_id(p: Json) -> Option<Seq<char>> {
    if p.at("error"@) is Some && p.at("id"@) is Some {
        Some(json_text(p.at("id"@).unwrap()))
    } else {
        None
    }
}

/// The ids of requests the other end answered with a JSON-RPC error, in trace
/// order.
pub open spec fn refused_ids(events: Seq<TraceEvent>) -> Seq<Seq<char>>
    decreases events.len(),
{
    if events.len() == 0 {
        Seq::empty()
    } else {
        let prev = refused_ids(events.drop_last());
        match events.last().payload() {
            Some(p) => match refused_id(p) {
                Some(t) => prev.push(t),
                None => prev,
            },
            None => prev,
        }
    }
}

/// Whether `p` is a request whose id was answered with an error.
pub open spec fn is_refused(p: Json, refused: Seq<Seq<char>>) -> bool {
    &&& p.at("method"@) is Some
    &&& match p.at("id"@) {
        Some(id) => refused.contains(json_text(id)),
        None => false,
    }
}

/// A declaration, when `t` is a well-formed date.
pub open spec fn dated(t: Option<Seq<char>>) -> Set<Seq<char>> {
    match t {
        Some(v) => if revision_date(v) { set![v] } else { Set::empty() },
        None => Set::empty(),
    }
}

/// The string member `key` of an optional object.
pub open spec fn string_member(j: Option<Json>, key: Seq<char>) -> Option<Seq<char>> {
    match j {
        Some(v) => match v.at(key) {
            Some(s) => s.text(),
            None => None,
        },
        None => None,
    }
}

/// The declarations of an `initialize` envelope or a request's `params`: a
/// string `protocolVersion`, and a string `_meta` protocol version.
pub open spec fn envelope_declarations(env: Option<Json>) -> Set<Seq<char>> {
    let meta = match env {
        Some(v) => v.at("_meta"@),
        None => None,
    };
    dated(string_member(env, "protocolVersion"@))
        + dated(string_member(meta, "io.modelcontextprotocol/protocolVersion"@))
}

/// The declarations of one message, from its `params` and its `result`.
pub open spec fn message_declarations(p: Json) -> Set<Seq<char>> {
    envelope_declarations(p.at("params"@)) + envelope_declarations(p.at("result"@))
}

/// The walk's state: what was declared, and the header value held until the
/// message it travelled with is seen.
pub struct DeclareWalk {
    pub found: Set<Seq<char>>,
    pub pending: Option<Seq<char>>,
}

/// One step: a refused request drops its header; another message declares
/// what it states and confirms the header; an HTTP event confirms any header
/// still held and holds its own.
pub open spec fn declare_step(refused: Seq<Seq<char>>, w: DeclareWalk, e: TraceEvent) -> DeclareWalk {
    match e.body {
        EventBody::Message { payload } => if is_refused(payload, refused) {
            DeclareWalk { found: w.found, pending: None }
        } else {
            DeclareWalk { found: w.found + message_declarations(payload) + dated(w.pending), pending: None }
        },
        EventBody::Http { headers, .. } => DeclareWalk {
            found: w.found + dated(w.pending),
            pending: header_value(headers@, "mcp-protocol-version"@),
        },
        _ => w,
    }
}

/// The walk over the first `n` events.
pub open spec fn declare_walk(events: Seq<TraceEvent>, refused: Seq<Seq<char>>, n: nat) -> DeclareWalk
    decreases n,
{
    if n == 0 {
        DeclareWalk { found: Set::empty(), pending: None }
    } else {
        declare_step(refused, declare_walk(events, refused, (n - 1) as nat), events[n - 1])
    }
}

/// Every well-formed revision the session states about itself, whether or not
/// any registry describes it.
pub open spec fn declared_all(events: Seq<TraceEvent>) -> Set<Seq<char>> {
    let w = declare_walk(events, refused_ids(events), events.len() as nat);
    w.found + dated(w.pending)
}

/// Whether this build ships a registry for the revision `t` names.
pub open spec fn known_revision(t: Seq<char>) -> bool {
    t == "2025-11-25"@ || t == "2026-07-28"@
}

/// The declarations this build ships a registry for.
pub open spec fn declared_known(events: Seq<TraceEvent>) -> Set<Seq<char>> {
    declared_all(events).filter(|t: Seq<char>| known_revision(t))
}

/// Whether `s` holds nothing.
pub open spec fn none_in(s: Set<Seq<char>>) -> bool {
    forall|t: Seq<char>| !s.contains(t)
}

/// Whether `s` is strictly ascending in character order, which for
/// `YYYY-MM-DD` dates is their chronological order.
pub open spec fn ascending(s: Seq<Seq<char>>) -> bool {
    forall|i: int, j: int| 0 <= i < j < s.len() ==> text_before(#[trigger] s[i], #[trigger] s[j])
}

/// The texts of a list of revisions.
pub open spec fn revision_texts(v: Seq<ProtocolRevision>) -> Seq<Seq<char>> {
    v.map_values(|r: ProtocolRevision| revision_text(r))
}

/// Inserting `t` where it belongs keeps a list ascending and adds `t` to its
/// members.
proof fn lemma_insert_ascending(s: Seq<Seq<char>>, k: int, t: Seq<char>)
    requires
        ascending(s),
        0 <= k <= s.len(),
        forall|i: int| 0 <= i < k ==> text_before(#[trigger] s[i], t),
        k < s.len() ==> text_before(t, s[k]),
    ensures
        ascending(s.insert(k, t)),
        s.insert(k, t).to_set() == s.to_set().insert(t),
{
    let r = s.insert(k, t);
    assert forall|i: int, j: int| 0 <= i < j < r.len() implies text_before(#[trigger] r[i], #[trigger] r[j]) by {
        if j < k {
        } else if j == k {
        } else if i < k {
            lemma_before_transitive(s[i], t, s[j - 1]);
            if j - 1 > k {
                lemma_before_transitive(t, s[k], s[j - 1]);
            }
        } else if i == k {
            if j - 1 > k {
                lemma_before_transitive(t, s[k], s[j - 1]);
            }
        } else {
        }
    }
    assert forall|x: Seq<char>| r.to_set().contains(x) <==> s.to_set().insert(t).contains(x) by {
        if r.to_set().contains(x) {
            let i = choose|i: int| 0 <= i < r.len() && r[i] == x;
            if i < k {
                assert(s[i] == x);
            } else if i > k {
                assert(s[i - 1] == x);
            }
        }
        if s.to_set().contains(x) {
            let i = choose|i: int| 0 <= i < s.len() && s[i] == x;
            if i < k {
                assert(r[i] == x);
            } else {
                assert(r[i + 1] == x);
            }
        }
        if x == t {
            assert(r[k] == t);
        }
    }
    assert(r.to_set() =~= s.to_set().insert(t));
}

/// Adds `t` to an ascending list of texts, where it belongs, unless present.
pub(crate) fn insert_sorted(list: &mut Vec<String>, t: &str)
    requires
        ascending(texts(old(list)@)),
    ensures
        ascending(texts(final(list)@)),
        texts(final(list)@).to_set() == texts(old(list)@).to_set().insert(t@),
{
    let ghost s = texts(list@);
    let mut k: usize = 0;
    while k < list.len() && precedes(list[k].as_str(), t)
        invariant
            s == texts(list@),
            k <= list@.len(),
            forall|i: int| 0 <= i < k ==> text_before(#[trigger] s[i], t@),
        decreases list@.len() - k,
    {
        k = k + 1;
    }
    if k < list.len() && text_eq(list[k].as_str(), t) {
        assert(s.to_set().insert(t@) =~= s.to_set()) by {
            assert(s[k as int] == t@);
        }
        return;
    }
    proof {
        if k < s.len() {
            lemma_before_total(s[k as int], t@);
        }
        lemma_insert_ascending(s, k as int, t@);
    }
    list.insert(k, owned(t));
    assert(texts(list@) =~= s.insert(k as int, t@));
}

/// Adds the revision `t` names, when it is a well-formed date.
fn insert_dated(list: &mut Vec<String>, t: &str)
    requires
        ascending(texts(old(list)@)),
    ensures
        ascending(texts(final(list)@)),
        texts(final(list)@).to_set() == texts(old(list)@).to_set() + dated(Some(t@)),
{
    if ProtocolRevision::parse(t).is_some() {
        insert_sorted(list, t);
        assert(texts(list@).to_set() =~= texts(old(list)@).to_set() + dated(Some(t@)));
    } else {
        assert(texts(list@).to_set() =~= texts(old(list)@).to_set() + dated(Some(t@)));
    }
}

/// Adds the revision an optional text names.
fn insert_opt(list: &mut Vec<String>, t: Option<&String>)
    requires
        ascending(texts(old(list)@)),
    ensures
        ascending(texts(final(list)@)),
        texts(final(list)@).to_set() == texts(old(list)@).to_set() + dated(match t {
            Some(v) => Some(v@),
            None => None,
        }),
{
    match t {
        Some(v) => insert_dated(list, v.as_str()),
        None => {
            assert(texts(list@).to_set() =~= texts(old(list)@).to_set() + Set::<Seq<char>>::empty());
        },
    }
}

/// The ids of requests answered with an error.
fn refused_request_ids(events: &[TraceEvent]) -> (r: Vec<String>)
    ensures
        texts(r@) == refused_ids(events@),
{
    let mut out: Vec<String> = Vec::new();
    let mut i: usize = 0;
    while i < events.len()
        invariant
            i <= events@.len(),
            texts(out@) == refused_ids(events@.take(i as int)),
        decreases events@.len() - i,
    {
        proof {
            assert(events@.take(i + 1).drop_last() =~= events@.take(i as int));
            assert(events@.take(i + 1).last() == events@[i as int]);
        }
        if let Some(p) = events[i].message_payload() {
            if p.get("error").is_some() {
                if let Some(id) = p.get("id") {
                    let ghost before = out@;
                    let t = id.to_text();
                    out.push(t);
                    assert(texts(out@) =~= texts(before).push(json_text(*id)));
                }
            }
        }
        i = i + 1;
    }
    assert(events@.take(events@.len() as int) =~= events@);
    out
}

/// Whether `p` is a request whose id was answered with an error.
fn refused_message(p: &Json, refused: &Vec<String>) -> (r: bool)
    ensures
        r == is_refused(*p, texts(refused@)),
{
    if p.get("method").is_none() {
        return false;
    }
    match p.get("id") {
        Some(id) => {
            let t = id.to_text();
            contains_text(refused, t.as_str())
        },
        None => false,
    }
}

/// The string member `key` of an optional object.
fn string_member_of<'a>(j: Option<&'a Json>, key: &str) -> (r: Option<&'a String>)
    ensures
        match r {
            Some(v) => string_member(crate::message::opt(j), key@) == Some(v@),
            None => string_member(crate::message::opt(j), key@) is None,
        },
{
    match j {
        Some(v) => match v.get(key) {
            Some(Json::Str(s)) => Some(s),
            _ => None,
        },
        None => None,
    }
}

/// Adds the declarations of an envelope.
fn collect_from_envelope(env: Option<&Json>, list: &mut Vec<String>)
    requires
        ascending(texts(old(list)@)),
    ensures
        ascending(texts(final(list)@)),
        texts(final(list)@).to_set() == texts(old(list)@).to_set() + envelope_declarations(crate::message::opt(env)),
{
    insert_opt(list, string_member_of(env, "protocolVersion"));
    let meta = match env {
        Some(v) => v.get("_meta"),
        None => None,
    };
    insert_opt(list, string_member_of(meta, "io.modelcontextprotocol/protocolVersion"));
    assert(texts(list@).to_set() =~= texts(old(list)@).to_set() + envelope_declarations(crate::message::opt(env)));
}

/// Every well-formed revision the session states about itself, ascending.
fn collect_all(events: &[TraceEvent]) -> (r: Vec<String>)
    ensures
        ascending(texts(r@)),
        texts(r@).to_set() == declared_all(events@),
{
    let refused = refused_request_ids(events);
    let ghost rs = refused_ids(events@);
    let mut found: Vec<String> = Vec::new();
    let mut pending: Option<&String> = None;
    let mut i: usize = 0;
    assert(texts(found@).to_set() =~= Set::<Seq<char>>::empty());
    while i < events.len()
        invariant
            i <= events@.len(),
            texts(refused@) == rs,
            rs == refused_ids(events@),
            ascending(texts(found@)),
            texts(found@).to_set() == declare_walk(events@, rs, i as nat).found,
            (match pending {
                Some(v) => Some(v@),
                None => None,
            }) == declare_walk(events@, rs, i as nat).pending,
        decreases events@.len() - i,
    {
        let event = &events[i];
        match &event.body {
            EventBody::Message { payload } => {
                if refused_message(payload, &refused) {
                    pending = None;
                } else {
                    let ghost before = texts(found@).to_set();
                    collect_from_envelope(payload.get("params"), &mut found);
                    collect_from_envelope(payload.get("result"), &mut found);
                    insert_opt(&mut found, pending);
                    pending = None;
                    assert(texts(found@).to_set() =~= declare_walk(events@, rs, (i + 1) as nat).found);
                }
            },
            EventBody::Http { headers, .. } => {
                insert_opt(&mut found, pending);
                pending = get_header(headers, "mcp-protocol-version");
            },
            _ => {},
        }
        i = i + 1;
    }
    insert_opt(&mut found, pending);
    found
}

/// The declarations this build ships a registry for, ascending.
fn collect(events: &[TraceEvent]) -> (r: Vec<String>)
    ensures
        ascending(texts(r@)),
        texts(r@).to_set() == declared_known(events@),
{
    let all = collect_all(events);
    let ghost s = texts(all@);
    let mut out: Vec<String> = Vec::new();
    let mut i: usize = 0;
    proof { reveal_strlit("2025-11-25"); reveal_strlit("2026-07-28"); }
    while i < all.len()
        invariant
            s == texts(all@),
            ascending(s),
            i <= s.len(),
            ascending(texts(out@)),
            forall|k: int, m: int| 0 <= k < out@.len() && i <= m < s.len() ==>
                text_before(#[trigger] texts(out@)[k], #[trigger] s[m]),
            texts(out@).to_set() == s.take(i as int).to_set().filter(|t: Seq<char>| known_revision(t)),
        decreases s.len() - i,
    {
        let t = all[i].as_str();
        let ghost before = texts(out@);
        if text_eq(t, "2025-11-25") || text_eq(t, "2026-07-28") {
            out.push(owned(t));
            assert(texts(out@) =~= before.push(s[i as int]));
        }
        assert(s.take(i + 1) =~= s.take(i as int).push(s[i as int]));
        proof {
            s.take(i as int).lemma_push_to_set_commute(s[i as int]);
            before.lemma_push_to_set_commute(s[i as int]);
        }
        assert(texts(out@).to_set() =~= s.take(i + 1).to_set().filter(|t: Seq<char>| known_revision(t)));
        i = i + 1;
    }
    assert(s.take(s.len() as int) =~= s);
    out
}

/// Every protocol revision the session states about itself that this build
/// ships a registry for, ascending. Only well-formed `YYYY-MM-DD` values
/// enter: a malformed `protocolVersion` is a violation with its own clause,
/// not evidence of which revision the session belongs to.
pub fn declared_revisions(events: &[TraceEvent]) -> (r: Vec<String>)
    ensures
        ascending(texts(r@)),
        texts(r@).to_set() == declared_known(events@),
{
    collect(events)
}

/// The revisions a session declared, when it declared some and the registry's
/// is not among them. `None` means there is nothing to warn about.
pub fn mismatch(registry_revision: ProtocolRevision, events: &[TraceEvent]) -> (r: Option<Vec<String>>)
    ensures
        r is None <==> (none_in(declared_known(events@))
            || declared_known(events@).contains(revision_text(registry_revision))),
        r matches Some(v) ==> ascending(texts(v@)) && texts(v@).to_set() == declared_known(events@),
{
    let declared = collect(events);
    let wanted = registry_revision.to_text();
    if declared.len() == 0 {
        assert(none_in(declared_known(events@))) by {
            assert(texts(declared@) =~= Seq::<Seq<char>>::empty());
        }
        return None;
    }
    assert(declared_known(events@).contains(texts(declared@)[0]));
    if contains_text(&declared, wanted.as_str()) {
        return None;
    }
    Some(declared)
}

/// [`mismatch`] for a run judging several revisions at once: the note fires
/// only when none of them is one the session declared.
pub fn mismatch_any(registry_revisions: &[ProtocolRevision], events: &[TraceEvent]) -> (r: Option<Vec<String>>)
    ensures
        r is None <==> (none_in(declared_known(events@))
            || exists|i: int| 0 <= i < registry_revisions@.len()
                && declared_known(events@).contains(#[trigger] revision_text(registry_revisions@[i]))),
        r matches Some(v) ==> ascending(texts(v@)) && texts(v@).to_set() == declared_known(events@),
{
    let declared = collect(events);
    if declared.len() == 0 {
        assert(none_in(declared_known(events@))) by {
            assert(texts(declared@) =~= Seq::<Seq<char>>::empty());
        }
        return None;
    }
    assert(declared_known(events@).contains(texts(declared@)[0]));
    let mut i: usize = 0;
    while i < registry_revisions.len()
        invariant
            i <= registry_revisions@.len(),
            texts(declared@).to_set() == declared_known(events@),
            forall|k: int| 0 <= k < i ==> !declared_known(events@).contains(#[trigger] revision_text(registry_revisions@[k])),
        decreases registry_revisions@.len() - i,
    {
        let wanted = registry_revisions[i].to_text();
        if contains_text(&declared, wanted.as_str()) {
            return None;
        }
        i = i + 1;
    }
    Some(declared)
}

/// How the revision a report judges against was chosen.
#[derive(Clone, Copy, Debug, PartialEq, Eq, Structural)]
pub enum RevisionSource {
    /// The caller named it.
    Requested,
    /// The trace declared it: see [`declared_revisions`] for what counts.
    Declared,
    /// The trace declared nothing, so the newest supported revision was used.
    Default,
}

impl RevisionSource {
    /// The source in words.
    pub fn describe(&self) -> (r: &'static str)
        ensures
            r@ == match *self {
                RevisionSource::Requested => "requested"@,
                RevisionSource::Declared => "declared by the trace"@,
                RevisionSource::Default => "the trace declares none; newest supported"@,
            },
    {
        match self {
            RevisionSource::Requested => "requested",
            RevisionSource::Declared => "declared by the trace",
            RevisionSource::Default => "the trace declares none; newest supported",
        }
    }
}

/// The revisions to judge a trace against, and why those.
#[derive(Debug)]
pub struct Selection {
    /// Ascending; never empty.
    pub revisions: Vec<ProtocolRevision>,
    /// How they were chosen.
    pub source: RevisionSource,
}

/// The trace declares only revisions no available registry describes.
#[derive(Debug)]
pub struct UnjudgeableRevisions {
    /// What the trace declared, ascending.
    pub declared: Vec<ProtocolRevision>,
    /// What the available registries describe, ascending.
    pub supported: Vec<ProtocolRevision>,
}

/// `items` joined by `", "`.
pub open spec fn joined(items: Seq<Seq<char>>) -> Seq<char>
    decreases items.len(),
{
    if items.len() == 0 {
        Seq::empty()
    } else if items.len() == 1 {
        items[0]
    } else {
        joined(items.drop_last()) + ", "@ + items.last()
    }
}

/// The texts of `v`, joined by `", "`.
fn join_revisions(v: &Vec<ProtocolRevision>) -> (r: String)
    ensures
        r@ == joined(revision_texts(v@)),
{
    let ghost ts = revision_texts(v@);
    let mut out = String::new();
    let mut i: usize = 0;
    while i < v.len()
        invariant
            ts == revision_texts(v@),
            i <= v@.len(),
            out@ == joined(ts.take(i as int)),
        decreases v@.len() - i,
    {
        proof {
            reveal_strlit(", ");
            assert(ts.take(i + 1).drop_last() =~= ts.take(i as int));
        }
        if i > 0 {
            push_text(&mut out, ", ");
        }
        let t = v[i].to_text();
        push_text(&mut out, t.as_str());
        proof {
            if i == 0 {
                assert(out@ =~= ts.take(1)[0]);
            }
        }
        i = i + 1;
    }
    assert(ts.take(v@.len() as int) =~= ts);
    out
}

impl UnjudgeableRevisions {
    /// The refusal in words.
    pub fn describe(&self) -> (r: String)
        ensures
            r@ == "the trace declares protocol revision(s) "@ + joined(revision_texts(self.declared@))
                + ", which no available registry describes (supported: "@ + joined(revision_texts(self.supported@))
                + "); judging it against another revision would report that revision's rules as violations"@,
    {
        let mut out = owned("the trace declares protocol revision(s) ");
        let d = join_revisions(&self.declared);
        push_text(&mut out, d.as_str());
        push_text(&mut out, ", which no available registry describes (supported: ");
        let s = join_revisions(&self.supported);
        push_text(&mut out, s.as_str());
        push_text(&mut out, "); judging it against another revision would report that revision's rules as violations");
        out
    }
}

/// The revisions each text of an ascending list names.
fn parse_all(list: &Vec<String>) -> (r: Vec<ProtocolRevision>)
    requires
        forall|i: int| 0 <= i < list@.len() ==> revision_date(#[trigger] list@[i]@),
    ensures
        revision_texts(r@) == texts(list@),
{
    let mut out: Vec<ProtocolRevision> = Vec::new();
    let mut i: usize = 0;
    while i < list.len()
        invariant
            i <= list@.len(),
            forall|k: int| 0 <= k < list@.len() ==> revision_date(#[trigger] list@[k]@),
            revision_texts(out@) == texts(list@.take(i as int)),
        decreases list@.len() - i,
    {
        let ghost before = out@;
        match ProtocolRevision::parse(list[i].as_str()) {
            Some(r) => {
                out.push(r);
                assert(revision_texts(out@) =~= revision_texts(before).push(revision_text(r)));
                assert(texts(list@.take(i + 1)) =~= texts(list@.take(i as int)).push(list@[i as int]@));
            },
            None => {},
        }
        i = i + 1;
    }
    assert(list@.take(list@.len() as int) =~= list@);
    out
}

/// The texts of the supported revisions.
pub open spec fn supported_texts(supported: Seq<ProtocolRevision>) -> Set<Seq<char>> {
    revision_texts(supported).to_set()
}

/// Every member of `declared_all` is a well-formed date.
proof fn lemma_declared_dated(events: Seq<TraceEvent>, rs: Seq<Seq<char>>, n: nat)
    requires
        n <= events.len(),
    ensures
        forall|t: Seq<char>| declare_walk(events, rs, n).found.contains(t) ==> revision_date(t),
    decreases n,
{
    if n > 0 {
        lemma_declared_dated(events, rs, (n - 1) as nat);
    }
}

/// Chooses the revisions to judge `events` against, from those `supported`:
/// the supported revisions the trace declares, all of them; else, when the
/// trace declares nothing, the newest supported revision; else (the trace
/// declares only unsupported revisions, or nothing is supported) an error.
pub fn select(supported: &[ProtocolRevision], events: &[TraceEvent]) -> (r: Result<Selection, UnjudgeableRevisions>)
    ensures
        r is Ok <==> (!none_in(declared_all(events@).intersect(supported_texts(supported@)))
            || (none_in(declared_all(events@)) && supported@.len() > 0)),
        r matches Ok(s) ==> !none_in(declared_all(events@).intersect(supported_texts(supported@))) ==> {
            &&& s.source == RevisionSource::Declared
            &&& ascending(revision_texts(s.revisions@))
            &&& revision_texts(s.revisions@).to_set() == declared_all(events@).intersect(supported_texts(supported@))
        },
        r matches Ok(s) ==> none_in(declared_all(events@).intersect(supported_texts(supported@))) ==> {
            &&& s.source == RevisionSource::Default
            &&& s.revisions@.len() == 1
            &&& supported_texts(supported@).contains(revision_text(s.revisions@[0]))
            &&& forall|i: int| 0 <= i < supported@.len() ==>
                    !text_before(revision_text(s.revisions@[0]), #[trigger] revision_text(supported@[i]))
        },
        r matches Err(e) ==> {
            &&& ascending(revision_texts(e.declared@))
            &&& revision_texts(e.declared@).to_set() == declared_all(events@)
            &&& ascending(revision_texts(e.supported@))
            &&& revision_texts(e.supported@).to_set() == supported_texts(supported@)
        },
{
    let declared = collect_all(events);
    let ghost d = declared_all(events@);
    let ghost sup = supported_texts(supported@);
    proof {
        lemma_declared_dated(events@, refused_ids(events@), events@.len() as nat);
    }
    let mut sorted: Vec<String> = Vec::new();
    let mut i: usize = 0;
    assert(texts(sorted@).to_set() =~= Set::<Seq<char>>::empty());
    while i < supported.len()
        invariant
            i <= supported@.len(),
            ascending(texts(sorted@)),
            texts(sorted@).to_set() == revision_texts(supported@.take(i as int)).to_set(),
            forall|k: int| 0 <= k < sorted@.len() ==> revision_date(#[trigger] sorted@[k]@),
        decreases supported@.len() - i,
    {
        let t = supported[i].to_text();
        insert_sorted(&mut sorted, t.as_str());
        proof {
            revision_texts(supported@.take(i as int)).lemma_push_to_set_commute(revision_text(supported@[i as int]));
        }
        assert(revision_texts(supported@.take(i + 1)) =~= revision_texts(supported@.take(i as int)).push(revision_text(supported@[i as int])));
        assert(texts(sorted@).to_set() =~= revision_texts(supported@.take(i + 1)).to_set());
        assert forall|k: int| 0 <= k < sorted@.len() implies revision_date(#[trigger] sorted@[k]@) by {
            assert(texts(sorted@).to_set().contains(texts(sorted@)[k]));
        }
        i = i + 1;
    }
    assert(supported@.take(supported@.len() as int) =~= supported@);
    let ghost st = texts(sorted@);
    let ghost ds = texts(declared@);
    let mut judgeable: Vec<String> = Vec::new();
    let mut j: usize = 0;
    while j < declared.len()
        invariant
            ds == texts(declared@),
            st == texts(sorted@),
            ascending(ds),
            j <= ds.len(),
            ascending(texts(judgeable@)),
            forall|k: int, m: int| 0 <= k < judgeable@.len() && j <= m < ds.len() ==>
                text_before(#[trigger] texts(judgeable@)[k], #[trigger] ds[m]),
            texts(judgeable@).to_set() == ds.take(j as int).to_set().intersect(st.to_set()),
        decreases ds.len() - j,
    {
        let ghost before = texts(judgeable@);
        if contains_text(&sorted, declared[j].as_str()) {
            judgeable.push(owned(declared[j].as_str()));
            assert(texts(judgeable@) =~= before.push(ds[j as int]));
        }
        assert(ds.take(j + 1) =~= ds.take(j as int).push(ds[j as int]));
        proof {
            ds.take(j as int).lemma_push_to_set_commute(ds[j as int]);
            before.lemma_push_to_set_commute(ds[j as int]);
        }
        assert(texts(judgeable@).to_set() =~= ds.take(j + 1).to_set().intersect(st.to_set()));
        j = j + 1;
    }
    assert(ds.take(ds.len() as int) =~= ds);
    assert forall|k: int| 0 <= k < declared@.len() implies revision_date(#[trigger] declared@[k]@) by {
        assert(ds.to_set().contains(ds[k]));
    }
    assert forall|k: int| 0 <= k < judgeable@.len() implies revision_date(#[trigger] judgeable@[k]@) by {
        assert(texts(judgeable@).to_set().contains(texts(judgeable@)[k]));
    }
    if judgeable.len() > 0 {
        assert(d.intersect(sup).contains(texts(judgeable@)[0]));
        let revisions = parse_all(&judgeable);
        return Ok(Selection { revisions, source: RevisionSource::Declared });
    }
    assert(none_in(d.intersect(sup))) by {
        assert(texts(judgeable@) =~= Seq::<Seq<char>>::empty());
    }
    if declared.len() == 0 && sorted.len() > 0 {
        let last = sorted.len() - 1;
        let newest = match ProtocolRevision::parse(sorted[last].as_str()) {
            Some(r) => r,
            None => { return Err(UnjudgeableRevisions { declared: parse_all(&declared), supported: parse_all(&sorted) }); },
        };
        proof {
            assert(ds =~= Seq::<Seq<char>>::empty());
            assert(st.to_set().contains(st[last as int]));
            assert forall|i: int| 0 <= i < supported@.len() implies
                !text_before(revision_text(newest), #[trigger] revision_text(supported@[i])) by {
                assert(revision_texts(supported@)[i] == revision_text(supported@[i]));
                assert(sup.contains(revision_text(supported@[i])));
                let k = choose|k: int| 0 <= k < st.len() && st[k] == revision_text(supported@[i]);
                if k < last {
                    lemma_before_asymmetric(st[k], st[last as int]);
                } else {
                    lemma_before_irreflexive(st[last as int]);
                }
            }
        }
        let mut revisions: Vec<ProtocolRevision> = Vec::new();
        revisions.push(newest);
        return Ok(Selection { revisions, source: RevisionSource::Default });
    }
    proof {
        if supported@.len() > 0 {
            assert(sup.contains(revision_texts(supported@)[0]));
            assert(st.len() > 0);
        }
        if ds.len() > 0 {
            assert(d.contains(ds[0]));
        }
    }
    let declared_revisions = parse_all(&declared);
    let supported_revisions = parse_all(&sorted);
    Err(UnjudgeableRevisions { declared: declared_revisions, supported: supported_revisions })
}

/// The revisions this build ships a registry for, ascending.
pub fn builtin_revisions() -> (r: Vec<ProtocolRevision>)
    ensures
        revision_texts(r@) == seq!["2025-11-25"@, "2026-07-28"@],
{
    let mut out: Vec<ProtocolRevision> = Vec::new();
    if let Some(r) = ProtocolRevision::parse("2025-11-25") {
        out.push(r);
    }
    if let Some(r) = ProtocolRevision::parse("2026-07-28") {
        out.push(r);
    }
    proof { reveal_strlit("2025-11-25"); reveal_strlit("2026-07-28"); }
    assert(revision_texts(out@) =~= seq!["2025-11-25"@, "2026-07-28"@]);
    out
}

} // verus!
