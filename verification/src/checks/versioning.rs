//! `2026-07-28` versioning and cross-era checks.

use vstd::prelude::*;
use crate::checks::sites::{entries, lemma_entries_take, lemma_entries_all};
use crate::checks::entry_views;
use crate::checks::{FindingSink, entry_seqs};
use crate::checks::sites::{sites, lemma_sites_take, lemma_sites_all, tally, lemma_tally_take, lemma_tally_all};
use crate::checks::meta_key::{validate_meta_key, meta_key_fault};
use crate::context::{TraceContext, exchange_ixs};
use crate::json::{Json, Number};
use crate::message::{MessageKind, Tag, spec_tag};
use crate::revision::{contains_revision, contains_revision_text};
use crate::declared::{ascending, insert_sorted};
use crate::text::{owned, push_text, debug_text, texts, contains_text, contains_char, u64_text};
use crate::trace::{Direction, TraceEvent};

verus! {

/// The protocol version a request's `_meta` declares.
pub open spec fn declared_version(p: Json) -> Option<Seq<char>> {
    match p.at("params"@) {
        Some(params) => match params.at("_meta"@) {
            Some(meta) => match meta.at("io.modelcontextprotocol/protocolVersion"@) {
                Some(v) => v.text(),
                None => None,
            },
            None => None,
        },
        None => None,
    }
}

fn declared_version_of(p: &Json) -> (r: Option<&str>)
    ensures
        r matches Some(v) ==> declared_version(*p) == Some(v@),
        r is None ==> declared_version(*p) is None,
{
    match p.get("params") {
        Some(params) => match params.get("_meta") {
            Some(meta) => match meta.get("io.modelcontextprotocol/protocolVersion") {
                Some(v) => v.as_str(),
                None => None,
            },
            None => None,
        },
        None => None,
    }
}

/// The string items of an array, in order.
pub open spec fn string_items(items: Seq<Json>) -> Seq<Seq<char>>
    decreases items.len(),
{
    if items.len() == 0 {
        Seq::empty()
    } else {
        string_items(items.drop_last()) + match items.last().text() {
            Some(t) => seq![t],
            None => Seq::empty(),
        }
    }
}

/// The versions a `-32022` error offers in `data.supported`, when it offers any.
pub open spec fn supported_from_error(p: Json) -> Option<Seq<Seq<char>>> {
    match p.at("error"@) {
        Some(err) => if err.at("code"@) matches Some(c) && c.int_value() == Some(-32022int) {
            match err.at("data"@) {
                Some(data) => match data.at("supported"@) {
                    Some(Json::Array(items)) => if string_items(items@).len() > 0 {
                        Some(string_items(items@))
                    } else {
                        None
                    },
                    _ => None,
                },
                None => None,
            }
        } else {
            None
        },
        None => None,
    }
}

fn supported_of(p: &Json) -> (r: Option<Vec<String>>)
    ensures
        r matches Some(v) ==> supported_from_error(*p) == Some(texts(v@)),
        r is None ==> supported_from_error(*p) is None,
{
    let err = match p.get("error") { Some(e) => e, None => { return None; } };
    let code = match err.get("code") { Some(c) => c.as_i64(), None => None };
    if code != Some(-32022i64) {
        return None;
    }
    let data = match err.get("data") { Some(d) => d, None => { return None; } };
    let items = match data.get("supported") {
        Some(s) => match s.as_array() { Some(a) => a, None => { return None; } },
        None => { return None; },
    };
    let mut out: Vec<String> = Vec::new();
    let mut i: usize = 0;
    while i < items.len()
        invariant
            i <= items@.len(),
            texts(out@) == string_items(items@.take(i as int)),
        decreases items@.len() - i,
    {
        proof { assert(items@.take(i + 1).drop_last() =~= items@.take(i as int)); }
        if let Some(t) = items[i].as_str() {
            out.push(owned(t));
        }
        assert(texts(out@) =~= string_items(items@.take(i + 1)));
        i = i + 1;
    }
    assert(items@.take(items@.len() as int) =~= items@);
    if out.len() == 0 {
        return None;
    }
    Some(out)
}

/// The offer a retry is judged against: the latest `-32022` the server sent,
/// with its seq and the versions it listed.
pub open spec fn latest_offer(events: Seq<TraceEvent>) -> Option<(u64, Seq<Seq<char>>)>
    decreases events.len(),
{
    if events.len() == 0 {
        None
    } else {
        let e = events.last();
        let prev = latest_offer(events.drop_last());
        if e.direction == Direction::ServerToClient && e.payload() is Some
            && supported_from_error(e.payload().unwrap()) is Some {
            Some((e.seq, supported_from_error(e.payload().unwrap()).unwrap()))
        } else {
            prev
        }
    }
}

/// A client request after an offer that declares a version the offer did not list.
pub open spec fn retry_site(offer: Option<(u64, Seq<Seq<char>>)>, e: TraceEvent) -> Seq<Option<u64>> {
    if e.direction == Direction::ClientToServer && e.payload() is Some
        && spec_tag(e.payload().unwrap()) == Tag::Request
        && offer is Some && declared_version(e.payload().unwrap()) is Some
        && !offer.unwrap().1.contains(declared_version(e.payload().unwrap()).unwrap()) {
        seq![Some(e.seq)]
    } else {
        Seq::empty()
    }
}

/// The subjects of the retry clause: client requests declaring a version
/// while an offer stands.
pub open spec fn retry_subjects(events: Seq<TraceEvent>) -> nat
    decreases events.len(),
{
    if events.len() == 0 {
        0
    } else {
        let e = events.last();
        retry_subjects(events.drop_last()) + if e.direction == Direction::ClientToServer && e.payload() is Some
            && spec_tag(e.payload().unwrap()) == Tag::Request
            && latest_offer(events.drop_last()) is Some && declared_version(e.payload().unwrap()) is Some { 1nat } else { 0nat }
    }
}

/// The retry findings over `events`, each request judged against the offer
/// standing before it.
pub open spec fn retry_sites(events: Seq<TraceEvent>) -> Seq<Option<u64>>
    decreases events.len(),
{
    if events.len() == 0 {
        Seq::empty()
    } else {
        retry_sites(events.drop_last()) + retry_site(latest_offer(events.drop_last()), events.last())
    }
}

/// The texts, each `Debug`-quoted, joined by `", "`.
pub open spec fn quoted_list(s: Seq<Seq<char>>) -> Seq<char>
    decreases s.len(),
{
    if s.len() == 0 {
        Seq::empty()
    } else if s.len() == 1 {
        crate::text::debug_quoted(s[0])
    } else {
        quoted_list(s.drop_last()) + ", "@ + crate::text::debug_quoted(s.last())
    }
}

/// The offered versions, each `Debug`-quoted, sorted and comma-separated.
fn offered_text(listed: &Vec<String>) -> (r: String)
    ensures
        exists|s: Seq<Seq<char>>| ascending(s) && s.to_set() == texts(listed@).to_set()
            && r@ == quoted_list(s),
{
    let mut sorted: Vec<String> = Vec::new();
    let mut i: usize = 0;
    assert(texts(sorted@).to_set() =~= texts(listed@.take(0)).to_set());
    while i < listed.len()
        invariant
            i <= listed@.len(),
            ascending(texts(sorted@)),
            texts(sorted@).to_set() == texts(listed@.take(i as int)).to_set(),
        decreases listed@.len() - i,
    {
        insert_sorted(&mut sorted, listed[i].as_str());
        proof {
            assert(texts(listed@.take(i + 1)) =~= texts(listed@.take(i as int)).push(listed@[i as int]@));
            texts(listed@.take(i as int)).lemma_push_to_set_commute(listed@[i as int]@);
        }
        i = i + 1;
    }
    assert(listed@.take(listed@.len() as int) =~= listed@);
    let ghost ts = texts(sorted@);
    let mut out = String::new();
    let mut k: usize = 0;
    while k < sorted.len()
        invariant
            ts == texts(sorted@),
            k <= sorted@.len(),
            out@ == quoted_list(ts.take(k as int)),
        decreases sorted@.len() - k,
    {
        proof {
            reveal_strlit(", ");
            assert(ts.take(k + 1).drop_last() =~= ts.take(k as int));
        }
        if k > 0 {
            push_text(&mut out, ", ");
        }
        let quoted = debug_text(sorted[k].as_str());
        push_text(&mut out, quoted.as_str());
        proof {
            if k == 0 {
                assert(out@ =~= crate::text::debug_quoted(ts.take(1)[0]));
            }
        }
        k = k + 1;
    }
    assert(ts.take(sorted@.len() as int) =~= ts);
    out
}

/// `VERS-*`: after the server refuses a version with `-32022` and lists the
/// versions it supports, the client's next requests declare one of them.
pub fn retry_uses_supported_version(context: &TraceContext<'_>, sink: &mut FindingSink)
    ensures
        final(sink).check_id() == old(sink).check_id(),
        entry_seqs(final(sink).found()) == entry_seqs(old(sink).found()) + retry_sites(context.trace()),
        final(sink).subject_count() == crate::checks::after_counting(old(sink).subject_count(), retry_subjects(context.trace()) as int),
{
    sink.examined_many(0);
    let ghost events = context.trace();
    let mut supported: Option<(u64, Vec<String>)> = None;
    let n = context.len();
    let mut i: usize = 0;
    while i < n
        invariant
            n == events.len(),
            events == context.trace(),
            i <= n,
            match latest_offer(events.take(i as int)) {
                Some((s, l)) => supported matches Some((s2, v)) && s2 == s && texts(v@) == l,
                None => supported is None,
            },
            sink.check_id() == old(sink).check_id(),
            entry_seqs(sink.found()) == entry_seqs(old(sink).found()) + retry_sites(events.take(i as int)),
            sink.subject_count() == crate::checks::after_counting(old(sink).subject_count(), retry_subjects(events.take(i as int)) as int),
        decreases n - i,
    {
        let event = context.event(i);
        proof {
            assert(events.take(i + 1).drop_last() =~= events.take(i as int));
            assert(events.take(i + 1).last() == events[i as int]);
        }
        if let Some(payload) = event.message_payload() {
            if event.direction == Direction::ServerToClient {
                if let Some(listed) = supported_of(payload) {
                    supported = Some((event.seq, listed));
                }
            } else {
                let is_request = match context.kind(i) {
                    Some(MessageKind::Request { .. }) => true,
                    _ => false,
                };
                if is_request {
                    if let Some((error_seq, listed)) = &supported {
                        if let Some(requested) = declared_version_of(payload) {
                            sink.examined();
                            if !contains_text(listed, requested) {
                                let mut d = owned("the request declares protocol version ");
                                let q = debug_text(requested);
                                push_text(&mut d, q.as_str());
                                push_text(&mut d, ", which the `supported` list in the -32022 at seq ");
                                let s = u64_text(*error_seq);
                                push_text(&mut d, s.as_str());
                                push_text(&mut d, " does not offer (");
                                let offered = offered_text(listed);
                                push_text(&mut d, offered.as_str());
                                push_text(&mut d, ")");
                                sink.push(Some(event.seq), d);
                            }
                        }
                    }
                }
            }
        }
        i = i + 1;
    }
    assert(events.take(n as int) =~= events);
}

/// The capability object whose `extensions` an event declares, and the surface
/// it is on (`true` for the client's).
pub open spec fn capability_surface(e: TraceEvent) -> Option<(bool, Option<Json>)> {
    match e.payload() {
        Some(p) => if e.direction == Direction::ClientToServer
            && (spec_tag(p) == Tag::Request || spec_tag(p) == Tag::Notification) {
            Some((true, match p.at("params"@) {
                Some(params) => match params.at("_meta"@) {
                    Some(meta) => meta.at("io.modelcontextprotocol/clientCapabilities"@),
                    None => None,
                },
                None => None,
            }))
        } else if e.direction == Direction::ServerToClient && spec_tag(p) == Tag::Result {
            Some((false, match p.at("result"@) {
                Some(result) => result.at("capabilities"@),
                None => None,
            }))
        } else {
            None
        },
        None => None,
    }
}

/// The extension identifiers an event declares, in member order.
pub open spec fn extension_members(e: TraceEvent) -> Seq<(String, Json)> {
    match capability_surface(e) {
        Some((_, Some(caps))) => match caps.at("extensions"@) {
            Some(Json::Object(m)) => m@,
            _ => Seq::empty(),
        },
        _ => Seq::empty(),
    }
}

/// Whether an extension identifier is acceptable: a valid `_meta` key that
/// carries a prefix.
pub open spec fn extension_id_ok(id: Seq<char>) -> bool {
    meta_key_fault(id) is None && id.contains('/')
}

/// One finding per unacceptable identifier among `members`.
pub open spec fn extension_key_sites(members: Seq<(String, Json)>, seq: u64) -> Seq<Option<u64>>
    decreases members.len(),
{
    if members.len() == 0 {
        Seq::empty()
    } else {
        extension_key_sites(members.drop_last(), seq)
            + if extension_id_ok(members.last().0@) { Seq::empty() } else { seq![Some(seq)] }
    }
}

pub open spec fn extension_site(e: TraceEvent) -> Seq<Option<u64>> {
    extension_key_sites(extension_members(e), e.seq)
}

/// How a finding names the capability surface an identifier was declared on.
pub open spec fn surface_name(client: bool) -> Seq<char> {
    if client { "client capabilities"@ } else { "server capabilities"@ }
}

/// The findings, as (seq, sentence), for the unacceptable identifiers among
/// `members`, declared on `surface`.
pub open spec fn extension_key_entries(members: Seq<(String, Json)>, surface: Seq<char>, seq: u64) -> Seq<(Option<u64>, Seq<char>)>
    decreases members.len(),
{
    if members.len() == 0 {
        Seq::empty()
    } else {
        let id = members.last().0@;
        extension_key_entries(members.drop_last(), surface, seq) + match meta_key_fault(id) {
            Some(f) => seq![(Some(seq), surface + " extension identifier "@ + crate::text::debug_quoted(id)
                + " "@ + crate::checks::meta_key::meta_key_message(f))],
            None => if id.contains('/') {
                Seq::empty()
            } else {
                seq![(Some(seq), surface + " extension identifier "@ + crate::text::debug_quoted(id)
                    + " has no prefix; the prefix is optional in a `_meta` key but mandatory for an extension identifier"@)]
            },
        }
    }
}

/// The extension-identifier findings, as (seq, sentence), of a message.
pub open spec fn extension_entry(e: TraceEvent) -> Seq<(Option<u64>, Seq<char>)> {
    extension_key_entries(extension_members(e), surface_name(capability_surface(e).unwrap().0), e.seq)
}

fn capability_surface_of<'a>(e: &'a TraceEvent, kind: &MessageKind<'a>) -> (r: Option<(bool, Option<&'a Json>)>)
    requires
        e.payload() matches Some(p) && crate::message::classifies(p, *kind),
    ensures
        match r {
            Some((client, caps)) => capability_surface(*e) == Some((client, crate::message::opt(caps))),
            None => capability_surface(*e) is None,
        },
{
    let p = e.message_payload().unwrap();
    match kind {
        MessageKind::Request { .. } | MessageKind::Notification { .. } => {
            if e.direction == Direction::ClientToServer {
                let caps = match p.get("params") {
                    Some(params) => match params.get("_meta") {
                        Some(meta) => meta.get("io.modelcontextprotocol/clientCapabilities"),
                        None => None,
                    },
                    None => None,
                };
                Some((true, caps))
            } else {
                None
            }
        },
        MessageKind::Result { .. } => {
            if e.direction == Direction::ServerToClient {
                let caps = match p.get("result") {
                    Some(result) => result.get("capabilities"),
                    None => None,
                };
                Some((false, caps))
            } else {
                None
            }
        },
        _ => None,
    }
}

/// `VERS-*`: every extension identifier a capability surface declares is a
/// valid `_meta` key with a prefix.
pub fn extension_identifier_format(context: &TraceContext<'_>, sink: &mut FindingSink)
    ensures
        final(sink).check_id() == old(sink).check_id(),
        entry_seqs(final(sink).found()) == entry_seqs(old(sink).found())
            + sites(context.trace(), |e: TraceEvent| extension_site(e)),
        final(sink).subject_count() == crate::checks::after_counting(old(sink).subject_count(),
            tally(context.trace(), |e: TraceEvent| extension_members(e).len()) as int),
        entry_views(final(sink).found()) == entry_views(old(sink).found())
            + entries(context.trace(), |e: TraceEvent| extension_entry(e)),
{
    sink.examined_many(0);
    let ghost f = |e: TraceEvent| extension_site(e);
    let ghost h = |e: TraceEvent| extension_entry(e);
    let ghost g = |e: TraceEvent| extension_members(e).len();
    let n = context.len();
    let mut i: usize = 0;
    while i < n
        invariant
            n == context.trace().len(),
            i <= n,
            f == (|e: TraceEvent| extension_site(e)),
            h == (|e: TraceEvent| extension_entry(e)),
            sink.check_id() == old(sink).check_id(),
            entry_seqs(sink.found()) == entry_seqs(old(sink).found()) + sites(context.trace().take(i as int), f),
            entry_views(sink.found()) == entry_views(old(sink).found()) + entries(context.trace().take(i as int), h),
            g == (|e: TraceEvent| extension_members(e).len()),
            sink.subject_count() == crate::checks::after_counting(old(sink).subject_count(), tally(context.trace().take(i as int), g) as int),
        decreases n - i,
    {
        let event = context.event(i);
        proof { lemma_sites_take(context.trace(), f, i as int); lemma_entries_take(context.trace(), h, i as int); lemma_tally_take(context.trace(), g, i as int); }
        if let Some(kind) = context.kind(i) {
            if let Some((client, Some(caps))) = capability_surface_of(event, kind) {
                if let Some(ext) = caps.get("extensions") {
                    if let Some(members) = ext.as_object() {
                        let mut k: usize = 0;
                        let ghost base = entry_seqs(sink.found());
                        let ghost base_views = entry_views(sink.found());
                        let ghost counted = tally(context.trace().take(i as int), g);
                        while k < members.len()
                            invariant
                                k <= members@.len(),
                                sink.check_id() == old(sink).check_id(),
                                sink.subject_count() == crate::checks::after_counting(old(sink).subject_count(), counted + k),
                                entry_seqs(sink.found()) == base + extension_key_sites(members@.take(k as int), event.seq),
                                entry_views(sink.found()) == base_views
                                    + extension_key_entries(members@.take(k as int), surface_name(client), event.seq),
                            decreases members@.len() - k,
                        {
                            proof { assert(members@.take(k + 1).drop_last() =~= members@.take(k as int)); }
                            let id = &members[k].0;
                            let surface = if client { "client capabilities" } else { "server capabilities" };
                            let q = debug_text(id.as_str());
                            match validate_meta_key(id.as_str()) {
                                Err(reason) => {
                                    let mut d = owned(surface);
                                    push_text(&mut d, " extension identifier ");
                                    push_text(&mut d, q.as_str());
                                    push_text(&mut d, " ");
                                    push_text(&mut d, reason.as_str());
                                    sink.examined();
                                    sink.push(Some(event.seq), d);
                                },
                                Ok(()) => {
                                    sink.examined();
                                    if !contains_char(id.as_str(), '/') {
                                        let mut d = owned(surface);
                                        push_text(&mut d, " extension identifier ");
                                        push_text(&mut d, q.as_str());
                                        push_text(&mut d, " has no prefix; the prefix is optional in a `_meta` key but mandatory for an extension identifier");
                                        sink.push(Some(event.seq), d);
                                    }
                                },
                            }
                            k = k + 1;
                        }
                        assert(members@.take(members@.len() as int) =~= members@);
                    }
                }
            }
        }
        i = i + 1;
    }
    proof { lemma_sites_all(context.trace(), f); lemma_entries_all(context.trace(), h); lemma_tally_all(context.trace(), g); }
}

/// Whether a JSON value names a protocol revision anywhere: in a string, or in
/// any array item or object member value, at any depth.
pub open spec fn names_revision(j: Json) -> bool
    decreases j, 0nat,
{
    match j {
        Json::Str(s) => contains_revision_text(s@),
        Json::Array(items) => items_name_revision(items@),
        Json::Object(members) => members_name_revision(members@),
        _ => false,
    }
}

pub open spec fn items_name_revision(items: Seq<Json>) -> bool
    decreases items, 1nat,
{
    if items.len() == 0 {
        false
    } else {
        items_name_revision(items.drop_last()) || names_revision(items.last())
    }
}

pub open spec fn members_name_revision(members: Seq<(String, Json)>) -> bool
    decreases members, 1nat,
{
    if members.len() == 0 {
        false
    } else {
        members_name_revision(members.drop_last()) || names_revision(members.last().1)
    }
}

/// Whether `j` names a protocol revision anywhere.
pub fn names_a_revision(j: &Json) -> (r: bool)
    ensures
        r == names_revision(*j),
    decreases j,
{
    match j {
        Json::Str(s) => contains_revision(s.as_str()),
        Json::Array(items) => {
            let mut found = false;
            let mut i: usize = 0;
            while i < items.len()
                invariant
                    i <= items@.len(),
                    *j == Json::Array(*items),
                    found == items_name_revision(items@.take(i as int)),
                decreases items@.len() - i,
            {
                proof {
                    assert(items@.take(i + 1).drop_last() =~= items@.take(i as int));
                    vstd::std_specs::vec::axiom_vec_index_decreases(*items, i as int);
                    assert(decreases_to!(*j => (*j)->Array_0));
                }
                let here = names_a_revision(&items[i]);
                found = found || here;
                i = i + 1;
            }
            assert(items@.take(items@.len() as int) =~= items@);
            found
        },
        Json::Object(members) => {
            let mut found = false;
            let mut i: usize = 0;
            while i < members.len()
                invariant
                    i <= members@.len(),
                    *j == Json::Object(*members),
                    found == members_name_revision(members@.take(i as int)),
                decreases members@.len() - i,
            {
                proof {
                    assert(members@.take(i + 1).drop_last() =~= members@.take(i as int));
                    vstd::std_specs::vec::axiom_vec_index_decreases(*members, i as int);
                    assert(decreases_to!(*j => (*j)->Object_0));
                    assert(decreases_to!(members[i as int] => members[i as int].1));
                }
                let here = names_a_revision(&members[i].1);
                found = found || here;
                i = i + 1;
            }
            assert(members@.take(members@.len() as int) =~= members@);
            found
        },
        _ => false,
    }
}

/// The refusals of a client `initialize` that name no revision, at the
/// refusal's seq, over the exchanges `ixs`.
pub open spec fn refusal_sites(events: Seq<TraceEvent>, ixs: Seq<(int, int)>) -> Seq<Option<u64>>
    decreases ixs.len(),
{
    if ixs.len() == 0 {
        Seq::empty()
    } else {
        let (r, j) = ixs.last();
        refusal_sites(events, ixs.drop_last())
            + if events[r].direction == Direction::ClientToServer
                && events[j].payload().unwrap().at("error"@) is Some
                && !names_revision(events[j].payload().unwrap().at("error"@).unwrap()) {
                seq![Some(events[j].seq)]
            } else {
                Seq::empty()
            }
    }
}

/// The subjects of the refusal clause: errors answering a client's
/// `initialize`.
pub open spec fn refusal_subjects(events: Seq<TraceEvent>, ixs: Seq<(int, int)>) -> nat
    decreases ixs.len(),
{
    if ixs.len() == 0 {
        0
    } else {
        let (r, j) = ixs.last();
        refusal_subjects(events, ixs.drop_last()) + if events[r].direction == Direction::ClientToServer
            && events[j].payload().unwrap().at("error"@) is Some { 1nat } else { 0nat }
    }
}

/// `VERS-*`: a server refusing the legacy `initialize` names the protocol
/// version(s) it speaks, in `data` or in prose.
pub fn initialize_error_names_versions(context: &TraceContext<'_>, sink: &mut FindingSink)
    ensures
        final(sink).check_id() == old(sink).check_id(),
        crate::checks::extends_with(old(sink).found(), final(sink).found(), "the error refusing `initialize` names no protocol version, leaving a legacy client — which has no fall-forward mechanism — nothing to surface"@),
        entry_seqs(final(sink).found()) == entry_seqs(old(sink).found()) + refusal_sites(context.trace(),
            exchange_ixs(context.trace(), context.pairs(), Some("initialize"@), context.trace().len() as nat)),
        final(sink).subject_count() == crate::checks::after_counting(old(sink).subject_count(), refusal_subjects(context.trace(),
            exchange_ixs(context.trace(), context.pairs(), Some("initialize"@), context.trace().len() as nat)) as int),
{
    sink.examined_many(0);
    let exchanges = context.exchanges_for("initialize");
    let ghost events = context.trace();
    let ghost ixs = exchange_ixs(context.trace(), context.pairs(), Some("initialize"@), context.trace().len() as nat);
    let mut k: usize = 0;
    while k < exchanges.len()
        invariant
            k <= exchanges@.len(),
            crate::context::exchanges_are(exchanges@, events, ixs),
            sink.check_id() == old(sink).check_id(),
            crate::checks::extends_with(old(sink).found(), sink.found(), "the error refusing `initialize` names no protocol version, leaving a legacy client — which has no fall-forward mechanism — nothing to surface"@),
            entry_seqs(sink.found()) == entry_seqs(old(sink).found()) + refusal_sites(events, ixs.take(k as int)),
            sink.subject_count() == crate::checks::after_counting(old(sink).subject_count(), refusal_subjects(events, ixs.take(k as int)) as int),
        decreases exchanges@.len() - k,
    {
        proof { assert(ixs.take(k + 1).drop_last() =~= ixs.take(k as int)); }
        let exchange = &exchanges[k];
        if exchange.request.direction == Direction::ClientToServer {
            let error = match exchange.response.message_payload() {
                Some(p) => p.get("error"),
                None => None,
            };
            if let Some(error) = error {
                sink.examined();
                if !names_a_revision(error) {
                    sink.push(Some(exchange.response.seq), owned(
                        "the error refusing `initialize` names no protocol version, leaving a legacy client — which has no fall-forward mechanism — nothing to surface"));
                }
            }
        }
        k = k + 1;
    }
    assert(ixs.take(ixs.len() as int) =~= ixs);
}

} // verus!
