//! Checks for the `2025-11-25` transport requirements (`TRAN-*`).
//!
//! stdio checks judge message validity per direction; Streamable HTTP checks
//! judge the headers recorded on HTTP events: session IDs, the
//! `MCP-Protocol-Version` header, the client's `Accept` header, and the verb
//! a client message rode.

use vstd::prelude::*;
use crate::checks::after_counting;
use crate::checks::sites::{tally, xtally, lemma_tally_take, lemma_xtally_take, lemma_tally_all, lemma_xtally_all};
use crate::checks::{FindingSink, entry_seqs, entry_views};
use crate::checks::sites::{sites, lemma_sites_take, lemma_sites_all, entries, lemma_entries_take, lemma_entries_all};
use crate::checks::designation::{ascii_lower, lower_text};
use crate::checks::transport::{header_value, get_header, http_headers};
use crate::context::{TraceContext, life_after};
use crate::message::{MessageKind, Tag, spec_tag};
use crate::text::{debug_quoted, decimal, owned, push_text, text_eq, debug_text, chars_of, u64_text};
use crate::trace::{Direction, EventBody, TraceEvent, TransportKind};

verus! {

/// A stdio message in direction `d` that is not a valid JSON-RPC message.
pub open spec fn invalid_stdio_site(e: TraceEvent, d: Direction) -> Seq<Option<u64>> {
    if e.transport == TransportKind::Stdio && e.direction == d && e.payload() is Some
        && spec_tag(e.payload().unwrap()) == Tag::Invalid {
        seq![Some(e.seq)]
    } else {
        Seq::empty()
    }
}

/// Reports the invalid stdio messages sent in `direction`.
fn stdio_messages_valid(context: &TraceContext<'_>, sink: &mut FindingSink, direction: Direction, stream: &str)
    ensures
        final(sink).check_id() == old(sink).check_id(),
        final(sink).subject_count() == old(sink).subject_count(),
        entry_seqs(final(sink).found()) == entry_seqs(old(sink).found())
            + sites(context.trace(), |e: TraceEvent| invalid_stdio_site(e, direction)),
{
    let ghost events = context.trace();
    let ghost f = |e: TraceEvent| invalid_stdio_site(e, direction);
    let n = context.len();
    let mut i: usize = 0;
    while i < n
        invariant
            n == events.len(),
            events == context.trace(),
            i <= n,
            f == (|e: TraceEvent| invalid_stdio_site(e, direction)),
            sink.check_id() == old(sink).check_id(),
            sink.subject_count() == old(sink).subject_count(),
            entry_seqs(sink.found()) == entry_seqs(old(sink).found()) + sites(events.take(i as int), f),
        decreases n - i,
    {
        proof { lemma_sites_take(events, f, i as int); }
        let event = context.event(i);
        if event.transport == TransportKind::Stdio && event.direction == direction {
            if let Some(MessageKind::Invalid { reason }) = context.kind(i) {
                let mut d = owned("message on ");
                push_text(&mut d, stream);
                push_text(&mut d, " is not a valid MCP message: ");
                push_text(&mut d, reason);
                sink.push(Some(event.seq), d);
            }
        }
        i = i + 1;
    }
    proof { lemma_sites_all(events, f); }
}

/// `TRAN-004`: nothing on the server's stdout that is not a valid MCP message.
pub fn stdio_server_output_valid(context: &TraceContext<'_>, sink: &mut FindingSink)
    ensures
        final(sink).check_id() == old(sink).check_id(),
        final(sink).subject_count() == old(sink).subject_count(),
        entry_seqs(final(sink).found()) == entry_seqs(old(sink).found())
            + sites(context.trace(), |e: TraceEvent| invalid_stdio_site(e, Direction::ServerToClient)),
{
    stdio_messages_valid(context, sink, Direction::ServerToClient, "stdout");
}

/// `TRAN-005`: nothing on the server's stdin that is not a valid MCP message.
pub fn stdio_client_input_valid(context: &TraceContext<'_>, sink: &mut FindingSink)
    ensures
        final(sink).check_id() == old(sink).check_id(),
        final(sink).subject_count() == old(sink).subject_count(),
        entry_seqs(final(sink).found()) == entry_seqs(old(sink).found())
            + sites(context.trace(), |e: TraceEvent| invalid_stdio_site(e, Direction::ClientToServer)),
{
    stdio_messages_valid(context, sink, Direction::ClientToServer, "stdin");
}

/// Whether every character of `s` is visible ASCII (0x21 to 0x7E).
pub open spec fn visible_ascii(s: Seq<char>) -> bool {
    forall|i: int| 0 <= i < s.len() ==> '!' <= #[trigger] s[i] && s[i] <= '~'
}

fn is_visible_ascii(s: &str) -> (r: bool)
    ensures
        r == visible_ascii(s@),
{
    let cs = chars_of(s);
    let mut i: usize = 0;
    while i < cs.len()
        invariant
            cs@ == s@,
            i <= cs@.len(),
            forall|k: int| 0 <= k < i ==> '!' <= #[trigger] cs@[k] && cs@[k] <= '~',
        decreases cs@.len() - i,
    {
        if !('!' <= cs[i] && cs[i] <= '~') {
            return false;
        }
        i = i + 1;
    }
    true
}

/// Whether `e` is an HTTP event sent in direction `d`.
pub open spec fn http_in(e: TraceEvent, d: Direction) -> bool {
    e.direction == d && e.body is Http
}

/// A server HTTP event whose session ID holds a character outside visible
/// ASCII.
pub open spec fn session_charset_site(e: TraceEvent) -> Seq<Option<u64>> {
    if http_in(e, Direction::ServerToClient)
        && (header_value(http_headers(e), "mcp-session-id"@) matches Some(v) && !visible_ascii(v)) {
        seq![Some(e.seq)]
    } else {
        Seq::empty()
    }
}

/// The finding, as (seq, sentence), of a session ID outside visible ASCII.
pub open spec fn session_charset_entry(e: TraceEvent) -> Seq<(Option<u64>, Seq<char>)> {
    if session_charset_site(e).len() > 0 {
        seq![(Some(e.seq), "session ID "@ + debug_quoted(header_value(http_headers(e), "mcp-session-id"@).unwrap())
            + " contains characters outside visible ASCII (0x21-0x7E)"@)]
    } else {
        Seq::empty()
    }
}

/// `TRAN-011`: session IDs must contain only visible ASCII (0x21 to 0x7E).
pub fn session_id_visible_ascii(context: &TraceContext<'_>, sink: &mut FindingSink)
    ensures
        final(sink).check_id() == old(sink).check_id(),
        final(sink).subject_count() == old(sink).subject_count(),
        entry_seqs(final(sink).found()) == entry_seqs(old(sink).found())
            + sites(context.trace(), |e: TraceEvent| session_charset_site(e)),
        entry_views(final(sink).found()) == entry_views(old(sink).found())
            + entries(context.trace(), |e: TraceEvent| session_charset_entry(e)),
{
    let ghost events = context.trace();
    let ghost f = |e: TraceEvent| session_charset_site(e);
    let ghost h = |e: TraceEvent| session_charset_entry(e);
    let n = context.len();
    let mut i: usize = 0;
    while i < n
        invariant
            n == events.len(),
            events == context.trace(),
            i <= n,
            f == (|e: TraceEvent| session_charset_site(e)),
            h == (|e: TraceEvent| session_charset_entry(e)),
            sink.check_id() == old(sink).check_id(),
            sink.subject_count() == old(sink).subject_count(),
            entry_seqs(sink.found()) == entry_seqs(old(sink).found()) + sites(events.take(i as int), f),
            entry_views(sink.found()) == entry_views(old(sink).found()) + entries(events.take(i as int), h),
        decreases n - i,
    {
        proof { lemma_sites_take(events, f, i as int); lemma_entries_take(events, h, i as int); }
        let event = context.event(i);
        if event.direction == Direction::ServerToClient {
            if let EventBody::Http { headers, .. } = &event.body {
                if let Some(id) = get_header(headers, "mcp-session-id") {
                    if !is_visible_ascii(id.as_str()) {
                        let mut d = owned("session ID ");
                        let q = debug_text(id.as_str());
                        push_text(&mut d, q.as_str());
                        push_text(&mut d, " contains characters outside visible ASCII (0x21-0x7E)");
                        sink.push(Some(event.seq), d);
                    }
                }
            }
        }
        i = i + 1;
    }
    proof { lemma_sites_all(events, f); lemma_entries_all(events, h); }
}

/// The first server-assigned session ID, with the seq it appeared at.
pub open spec fn assigned(events: Seq<TraceEvent>) -> Option<(u64, Seq<char>)>
    decreases events.len(),
{
    if events.len() == 0 {
        None
    } else {
        match assigned(events.drop_last()) {
            Some(a) => Some(a),
            None => {
                let e = events.last();
                if http_in(e, Direction::ServerToClient) && header_value(http_headers(e), "mcp-session-id"@) is Some {
                    Some((e.seq, header_value(http_headers(e), "mcp-session-id"@).unwrap()))
                } else {
                    None
                }
            },
        }
    }
}

/// A client HTTP request, at or after the assignment, that does not echo the
/// assigned session ID.
pub open spec fn echo_site(e: TraceEvent, a: (u64, Seq<char>)) -> Seq<Option<u64>> {
    if http_in(e, Direction::ClientToServer) && e.seq >= a.0
        && header_value(http_headers(e), "mcp-session-id"@) != Some(a.1) {
        seq![Some(e.seq)]
    } else {
        Seq::empty()
    }
}

/// The finding, as (seq, sentence), of a client HTTP request that does not
/// echo the assigned session ID.
pub open spec fn echo_entry(e: TraceEvent, a: (u64, Seq<char>)) -> Seq<(Option<u64>, Seq<char>)> {
    if echo_site(e, a).len() > 0 {
        match header_value(http_headers(e), "mcp-session-id"@) {
            None => seq![(Some(e.seq), "client HTTP request lacks the MCP-Session-Id header; the server assigned "@
                + debug_quoted(a.1) + " at seq "@ + decimal(a.0 as nat))],
            Some(echoed) => seq![(Some(e.seq), "client echoed session ID "@ + debug_quoted(echoed)
                + ", but the server assigned "@ + debug_quoted(a.1))],
        }
    } else {
        Seq::empty()
    }
}

/// The echo findings, as (seq, sentence), of a trace.
pub open spec fn echo_entries(events: Seq<TraceEvent>) -> Seq<(Option<u64>, Seq<char>)> {
    match assigned(events) {
        Some(a) => entries(events, |e: TraceEvent| echo_entry(e, a)),
        None => Seq::empty(),
    }
}

/// `TRAN-013`: once the server returns an `MCP-Session-Id`, every subsequent
/// client HTTP request must carry it.
pub fn session_id_echoed(context: &TraceContext<'_>, sink: &mut FindingSink)
    ensures
        final(sink).check_id() == old(sink).check_id(),
        final(sink).subject_count() == old(sink).subject_count(),
        entry_seqs(final(sink).found()) == entry_seqs(old(sink).found()) + match assigned(context.trace()) {
            Some(a) => sites(context.trace(), |e: TraceEvent| echo_site(e, a)),
            None => Seq::empty(),
        },
        entry_views(final(sink).found()) == entry_views(old(sink).found()) + echo_entries(context.trace()),
{
    let ghost events = context.trace();
    let n = context.len();
    let mut found: Option<(u64, &String)> = None;
    let mut i: usize = 0;
    while i < n
        invariant
            n == events.len(),
            events == context.trace(),
            i <= n,
            match found {
                Some((s, v)) => assigned(events.take(i as int)) == Some((s, v@)),
                None => assigned(events.take(i as int)) is None,
            },
        decreases n - i,
    {
        proof {
            assert(events.take(i + 1).drop_last() =~= events.take(i as int));
            assert(events.take(i + 1).last() == events[i as int]);
        }
        if found.is_none() {
            let event = context.event(i);
            if event.direction == Direction::ServerToClient {
                if let EventBody::Http { headers, .. } = &event.body {
                    if let Some(id) = get_header(headers, "mcp-session-id") {
                        found = Some((event.seq, id));
                    }
                }
            }
        }
        i = i + 1;
    }
    proof { assert(events.take(n as int) =~= events); }
    let (assigned_seq, session_id) = match found {
        Some(a) => a,
        None => {
            assert(entry_seqs(sink.found()) =~= entry_seqs(old(sink).found()) + Seq::<Option<u64>>::empty());
            assert(entry_views(sink.found()) =~= entry_views(old(sink).found()) + Seq::<(Option<u64>, Seq<char>)>::empty());
            return;
        },
    };
    let ghost a = (assigned_seq, session_id@);
    let ghost f = |e: TraceEvent| echo_site(e, a);
    let ghost h = |e: TraceEvent| echo_entry(e, a);
    let mut i: usize = 0;
    while i < n
        invariant
            n == events.len(),
            events == context.trace(),
            i <= n,
            f == (|e: TraceEvent| echo_site(e, a)),
            h == (|e: TraceEvent| echo_entry(e, a)),
            a == (assigned_seq, session_id@),
            sink.check_id() == old(sink).check_id(),
            sink.subject_count() == old(sink).subject_count(),
            entry_seqs(sink.found()) == entry_seqs(old(sink).found()) + sites(events.take(i as int), f),
            entry_views(sink.found()) == entry_views(old(sink).found()) + entries(events.take(i as int), h),
        decreases n - i,
    {
        proof { lemma_sites_take(events, f, i as int); lemma_entries_take(events, h, i as int); }
        let event = context.event(i);
        if event.direction == Direction::ClientToServer && event.seq >= assigned_seq {
            if let EventBody::Http { headers, .. } = &event.body {
                match get_header(headers, "mcp-session-id") {
                    None => {
                        let mut d = owned("client HTTP request lacks the MCP-Session-Id header; the server assigned ");
                        let q = debug_text(session_id.as_str());
                        push_text(&mut d, q.as_str());
                        push_text(&mut d, " at seq ");
                        let s = u64_text(assigned_seq);
                        push_text(&mut d, s.as_str());
                        sink.push(Some(event.seq), d);
                    },
                    Some(echoed) => {
                        if !text_eq(echoed.as_str(), session_id.as_str()) {
                            let mut d = owned("client echoed session ID ");
                            let q = debug_text(echoed.as_str());
                            push_text(&mut d, q.as_str());
                            push_text(&mut d, ", but the server assigned ");
                            let q2 = debug_text(session_id.as_str());
                            push_text(&mut d, q2.as_str());
                            sink.push(Some(event.seq), d);
                        }
                    },
                }
            }
        }
        i = i + 1;
    }
    proof { lemma_sites_all(events, f); lemma_entries_all(events, h); }
}

/// The protocol version the server's `initialize` result stated, when
/// present and a string, with the seq it was negotiated at.
pub open spec fn negotiated(events: Seq<TraceEvent>) -> Option<(u64, Seq<char>)> {
    match life_after(events).init.result {
        Some((seq, result)) => match result.at("protocolVersion"@) {
            Some(v) => match v.text() {
                Some(t) => Some((seq, t)),
                None => None,
            },
            None => None,
        },
        None => None,
    }
}

/// The negotiated protocol version, with the seq it was negotiated at.
fn negotiated_version<'a>(context: &TraceContext<'a>) -> (r: Option<(u64, &'a str)>)
    ensures
        match r {
            Some((s, v)) => negotiated(context.trace()) == Some((s, v@)),
            None => negotiated(context.trace()) is None,
        },
{
    match context.initialize().result {
        Some((seq, result)) => match result.get("protocolVersion") {
            Some(v) => match v.as_str() {
                Some(t) => Some((seq, t)),
                None => None,
            },
            None => None,
        },
        None => None,
    }
}

/// A client HTTP request after initialization without `MCP-Protocol-Version`.
pub open spec fn version_header_site(e: TraceEvent, after: u64) -> Seq<Option<u64>> {
    if http_in(e, Direction::ClientToServer) && e.seq > after
        && header_value(http_headers(e), "mcp-protocol-version"@) is None {
        seq![Some(e.seq)]
    } else {
        Seq::empty()
    }
}

/// `TRAN-017`: after initialization, every client HTTP request must carry
/// `MCP-Protocol-Version`.
pub fn protocol_version_header(context: &TraceContext<'_>, sink: &mut FindingSink)
    ensures
        final(sink).check_id() == old(sink).check_id(),
        crate::checks::extends_with(old(sink).found(), final(sink).found(), "client HTTP request after initialization lacks the MCP-Protocol-Version header"@),
        final(sink).subject_count() == old(sink).subject_count(),
        entry_seqs(final(sink).found()) == entry_seqs(old(sink).found()) + match negotiated(context.trace()) {
            Some((s, _)) => sites(context.trace(), |e: TraceEvent| version_header_site(e, s)),
            None => Seq::empty(),
        },
{
    let (negotiated_seq, _) = match negotiated_version(context) {
        Some(n) => n,
        None => {
            assert(entry_seqs(sink.found()) =~= entry_seqs(old(sink).found()) + Seq::<Option<u64>>::empty());
            return;
        },
    };
    let ghost events = context.trace();
    let ghost f = |e: TraceEvent| version_header_site(e, negotiated_seq);
    let n = context.len();
    let mut i: usize = 0;
    while i < n
        invariant
            n == events.len(),
            events == context.trace(),
            i <= n,
            f == (|e: TraceEvent| version_header_site(e, negotiated_seq)),
            sink.check_id() == old(sink).check_id(),
            crate::checks::extends_with(old(sink).found(), sink.found(), "client HTTP request after initialization lacks the MCP-Protocol-Version header"@),
            sink.subject_count() == old(sink).subject_count(),
            entry_seqs(sink.found()) == entry_seqs(old(sink).found()) + sites(events.take(i as int), f),
        decreases n - i,
    {
        proof { lemma_sites_take(events, f, i as int); }
        let event = context.event(i);
        if event.direction == Direction::ClientToServer && event.seq > negotiated_seq {
            if let EventBody::Http { headers, .. } = &event.body {
                if get_header(headers, "mcp-protocol-version").is_none() {
                    sink.push(Some(event.seq), owned(
                        "client HTTP request after initialization lacks the MCP-Protocol-Version header"));
                }
            }
        }
        i = i + 1;
    }
    proof { lemma_sites_all(events, f); }
}

/// A client HTTP request after initialization stating another version than
/// the negotiated one.
pub open spec fn negotiated_site(e: TraceEvent, n: (u64, Seq<char>)) -> Seq<Option<u64>> {
    if http_in(e, Direction::ClientToServer) && e.seq > n.0
        && (header_value(http_headers(e), "mcp-protocol-version"@) matches Some(v) && v != n.1) {
        seq![Some(e.seq)]
    } else {
        Seq::empty()
    }
}

/// The finding, as (seq, sentence), of a client HTTP request stating another
/// version than the negotiated one.
pub open spec fn negotiated_entry(e: TraceEvent, n: (u64, Seq<char>)) -> Seq<(Option<u64>, Seq<char>)> {
    if negotiated_site(e, n).len() > 0 {
        seq![(Some(e.seq), "client sent MCP-Protocol-Version "@
            + debug_quoted(header_value(http_headers(e), "mcp-protocol-version"@).unwrap())
            + ", but "@ + debug_quoted(n.1) + " was negotiated at seq "@ + decimal(n.0 as nat))]
    } else {
        Seq::empty()
    }
}

/// The negotiation findings, as (seq, sentence), of a trace.
pub open spec fn negotiated_entries(events: Seq<TraceEvent>) -> Seq<(Option<u64>, Seq<char>)> {
    match negotiated(events) {
        Some(v) => entries(events, |e: TraceEvent| negotiated_entry(e, v)),
        None => Seq::empty(),
    }
}

/// `TRAN-018`: the protocol version the client sends should be the
/// negotiated one.
pub fn protocol_version_negotiated(context: &TraceContext<'_>, sink: &mut FindingSink)
    ensures
        final(sink).check_id() == old(sink).check_id(),
        final(sink).subject_count() == old(sink).subject_count(),
        entry_seqs(final(sink).found()) == entry_seqs(old(sink).found()) + match negotiated(context.trace()) {
            Some(v) => sites(context.trace(), |e: TraceEvent| negotiated_site(e, v)),
            None => Seq::empty(),
        },
        entry_views(final(sink).found()) == entry_views(old(sink).found()) + negotiated_entries(context.trace()),
{
    let (negotiated_seq, version) = match negotiated_version(context) {
        Some(n) => n,
        None => {
            assert(entry_seqs(sink.found()) =~= entry_seqs(old(sink).found()) + Seq::<Option<u64>>::empty());
            assert(entry_views(sink.found()) =~= entry_views(old(sink).found()) + Seq::<(Option<u64>, Seq<char>)>::empty());
            return;
        },
    };
    let ghost nv = (negotiated_seq, version@);
    let ghost events = context.trace();
    let ghost f = |e: TraceEvent| negotiated_site(e, nv);
    let ghost h = |e: TraceEvent| negotiated_entry(e, nv);
    let n = context.len();
    let mut i: usize = 0;
    while i < n
        invariant
            n == events.len(),
            events == context.trace(),
            i <= n,
            nv == (negotiated_seq, version@),
            f == (|e: TraceEvent| negotiated_site(e, nv)),
            h == (|e: TraceEvent| negotiated_entry(e, nv)),
            sink.check_id() == old(sink).check_id(),
            sink.subject_count() == old(sink).subject_count(),
            entry_seqs(sink.found()) == entry_seqs(old(sink).found()) + sites(events.take(i as int), f),
            entry_views(sink.found()) == entry_views(old(sink).found()) + entries(events.take(i as int), h),
        decreases n - i,
    {
        proof { lemma_sites_take(events, f, i as int); lemma_entries_take(events, h, i as int); }
        let event = context.event(i);
        if event.direction == Direction::ClientToServer && event.seq > negotiated_seq {
            if let EventBody::Http { headers, .. } = &event.body {
                if let Some(sent) = get_header(headers, "mcp-protocol-version") {
                    if !text_eq(sent.as_str(), version) {
                        let mut d = owned("client sent MCP-Protocol-Version ");
                        let q = debug_text(sent.as_str());
                        push_text(&mut d, q.as_str());
                        push_text(&mut d, ", but ");
                        let q2 = debug_text(version);
                        push_text(&mut d, q2.as_str());
                        push_text(&mut d, " was negotiated at seq ");
                        let s = u64_text(negotiated_seq);
                        push_text(&mut d, s.as_str());
                        sink.push(Some(event.seq), d);
                    }
                }
            }
        }
        i = i + 1;
    }
    proof { lemma_sites_all(events, f); lemma_entries_all(events, h); }
}

/// Whether `t` occurs in `s`.
pub open spec fn occurs_in(s: Seq<char>, t: Seq<char>) -> bool {
    exists|k: int| 0 <= k && k + t.len() <= s.len() && #[trigger] s.subrange(k, k + t.len()) == t
}

/// Whether `b` occurs in `a` at `k`.
fn occurs_at(a: &Vec<char>, b: &Vec<char>, k: usize) -> (r: bool)
    requires
        k + b@.len() <= a@.len(),
    ensures
        r == (a@.subrange(k as int, k + b@.len()) == b@),
{
    let mut m: usize = 0;
    while m < b.len()
        invariant
            k + b@.len() <= a@.len(),
            m <= b@.len(),
            forall|q: int| 0 <= q < m ==> a@[k + q] == b@[q],
        decreases b@.len() - m,
    {
        assert(k + m < a.len());
        if a[k + m] != b[m] {
            assert(a@.subrange(k as int, k + b@.len())[m as int] != b@[m as int]);
            return false;
        }
        m = m + 1;
    }
    assert(a@.subrange(k as int, k + b@.len()) =~= b@);
    true
}

/// Whether `t` occurs in `s`.
fn has_substring(s: &str, t: &str) -> (r: bool)
    ensures
        r == occurs_in(s@, t@),
{
    let a = chars_of(s);
    let b = chars_of(t);
    if b.len() > a.len() {
        return false;
    }
    let last = a.len() - b.len();
    let mut k: usize = 0;
    loop
        invariant
            a@ == s@,
            b@ == t@,
            last == a@.len() - b@.len(),
            k <= last,
            forall|j: int| 0 <= j < k ==> #[trigger] a@.subrange(j, j + b@.len()) != b@,
        decreases last - k,
    {
        if occurs_at(&a, &b, k) {
            return true;
        }
        if k == last {
            assert forall|j: int| 0 <= j && j + t@.len() <= s@.len() implies #[trigger] s@.subrange(j, j + t@.len()) != t@ by {
                assert(j <= k);
            }
            return false;
        }
        k = k + 1;
    }
}

/// Whether an `Accept` field value offers `media`, case-insensitively.
pub open spec fn offers(accept: Seq<char>, media: Seq<char>) -> bool {
    occurs_in(ascii_lower(accept), media)
}

fn offers_media(accept: &str, media: &str) -> (r: bool)
    ensures
        r == offers(accept@, media@),
{
    let lowered = lower_text(accept);
    has_substring(lowered.as_str(), media)
}

/// The verb an HTTP event recorded, lowercased: capturers differ in case.
pub open spec fn verb(e: TraceEvent) -> Option<Seq<char>> {
    match e.body {
        EventBody::Http { method, .. } => match method {
            Some(m) => Some(ascii_lower(m@)),
            None => None,
        },
        _ => None,
    }
}

/// A client POST whose `Accept` does not list both `application/json` and
/// `text/event-stream`.
pub open spec fn post_accept_site(e: TraceEvent) -> Seq<Option<u64>> {
    if e.direction == Direction::ClientToServer && verb(e) == Some("post"@)
        && !(header_value(http_headers(e), "accept"@) matches Some(a)
            && offers(a, "application/json"@) && offers(a, "text/event-stream"@)) {
        seq![Some(e.seq)]
    } else {
        Seq::empty()
    }
}

/// One subject per client HTTP request whose recorded verb is `verb`.
pub open spec fn verb_subject(e: TraceEvent, v: Seq<char>) -> nat {
    if e.direction == Direction::ClientToServer && verb(e) == Some(v) { 1 } else { 0 }
}

/// The media types a POST's `Accept` value fails to list, as a finding names
/// them.
pub open spec fn unlisted_media(accept: Seq<char>) -> Seq<char> {
    if !offers(accept, "application/json"@) && !offers(accept, "text/event-stream"@) {
        "application/json or text/event-stream"@
    } else if !offers(accept, "application/json"@) {
        "application/json"@
    } else {
        "text/event-stream"@
    }
}

/// The finding, as (seq, sentence), of a client POST whose `Accept` does not
/// list both media types.
pub open spec fn post_accept_entry(e: TraceEvent) -> Seq<(Option<u64>, Seq<char>)> {
    if post_accept_site(e).len() > 0 {
        match header_value(http_headers(e), "accept"@) {
            None => seq![(Some(e.seq),
                "client HTTP POST has no Accept header; it must list both application/json and text/event-stream"@)],
            Some(a) => seq![(Some(e.seq), "client POST Accept header "@ + crate::text::debug_quoted(a) + " does not list "@
                + unlisted_media(a) + "; a POST must offer both application/json and text/event-stream"@)],
        }
    } else {
        Seq::empty()
    }
}

/// `TRAN-025`: a client POST must `Accept` both `application/json` and
/// `text/event-stream`.
pub fn client_post_accept_header(context: &TraceContext<'_>, sink: &mut FindingSink)
    ensures
        final(sink).check_id() == old(sink).check_id(),
        final(sink).subject_count() == after_counting(old(sink).subject_count(),
            tally(context.trace(), |e: TraceEvent| verb_subject(e, "post"@)) as int),
        entry_seqs(final(sink).found()) == entry_seqs(old(sink).found())
            + sites(context.trace(), |e: TraceEvent| post_accept_site(e)),
        crate::checks::entry_views(final(sink).found()) == crate::checks::entry_views(old(sink).found())
            + entries(context.trace(), |e: TraceEvent| post_accept_entry(e)),
{
    sink.examined_many(0);
    let ghost events = context.trace();
    let ghost f = |e: TraceEvent| post_accept_site(e);
    let n = context.len();
    let ghost g = |e: TraceEvent| verb_subject(e, "post"@);
    let ghost h = |e: TraceEvent| post_accept_entry(e);
    let mut i: usize = 0;
    while i < n
        invariant
            n == events.len(),
            events == context.trace(),
            i <= n,
            f == (|e: TraceEvent| post_accept_site(e)),
            sink.check_id() == old(sink).check_id(),
            g == (|e: TraceEvent| verb_subject(e, "post"@)),
            sink.subject_count() == after_counting(old(sink).subject_count(), tally(events.take(i as int), g) as int),
            entry_seqs(sink.found()) == entry_seqs(old(sink).found()) + sites(events.take(i as int), f),
            h == (|e: TraceEvent| post_accept_entry(e)),
            crate::checks::entry_views(sink.found()) == crate::checks::entry_views(old(sink).found()) + entries(events.take(i as int), h),
        decreases n - i,
    {
        proof { lemma_sites_take(events, f, i as int); lemma_tally_take(events, g, i as int); lemma_entries_take(events, h, i as int); }
        let event = context.event(i);
        if event.direction == Direction::ClientToServer {
            if let EventBody::Http { method: Some(method), headers, .. } = &event.body {
                let lowered = lower_text(method.as_str());
                if text_eq(lowered.as_str(), "post") {
                    sink.examined();
                    match get_header(headers, "accept") {
                        None => {
                            sink.push(Some(event.seq), owned(
                                "client HTTP POST has no Accept header; it must list both application/json and text/event-stream"));
                        },
                        Some(accept) => {
                            let json = offers_media(accept.as_str(), "application/json");
                            let sse = offers_media(accept.as_str(), "text/event-stream");
                            if !json || !sse {
                                let mut d = owned("client POST Accept header ");
                                let q = debug_text(accept.as_str());
                                push_text(&mut d, q.as_str());
                                push_text(&mut d, " does not list ");
                                if !json && !sse {
                                    push_text(&mut d, "application/json or text/event-stream");
                                } else if !json {
                                    push_text(&mut d, "application/json");
                                } else {
                                    push_text(&mut d, "text/event-stream");
                                }
                                push_text(&mut d, "; a POST must offer both application/json and text/event-stream");
                                proof {
                                    assert(d@ =~= "client POST Accept header "@ + crate::text::debug_quoted(accept@) + " does not list "@
                                        + unlisted_media(accept@) + "; a POST must offer both application/json and text/event-stream"@);
                                }
                                sink.push(Some(event.seq), d);
                            }
                        },
                    }
                }
            }
        }
        i = i + 1;
    }
    proof { lemma_sites_all(events, f); lemma_tally_all(events, g); lemma_entries_all(events, h); }
}

/// A client GET whose `Accept` does not list `text/event-stream`.
pub open spec fn get_accept_site(e: TraceEvent) -> Seq<Option<u64>> {
    if e.direction == Direction::ClientToServer && verb(e) == Some("get"@)
        && !(header_value(http_headers(e), "accept"@) matches Some(a) && offers(a, "text/event-stream"@)) {
        seq![Some(e.seq)]
    } else {
        Seq::empty()
    }
}

/// The finding, as (seq, sentence), of a client GET whose `Accept` does not
/// list `text/event-stream`.
pub open spec fn get_accept_entry(e: TraceEvent) -> Seq<(Option<u64>, Seq<char>)> {
    if get_accept_site(e).len() > 0 {
        match header_value(http_headers(e), "accept"@) {
            None => seq![(Some(e.seq),
                "client HTTP GET has no Accept header; a GET to the MCP endpoint must list text/event-stream"@)],
            Some(a) => seq![(Some(e.seq), "client GET Accept header "@ + debug_quoted(a)
                + " does not list text/event-stream"@)],
        }
    } else {
        Seq::empty()
    }
}

/// `TRAN-039`: a client GET opening a standalone stream must `Accept`
/// `text/event-stream`.
pub fn client_get_accept_header(context: &TraceContext<'_>, sink: &mut FindingSink)
    ensures
        final(sink).check_id() == old(sink).check_id(),
        final(sink).subject_count() == after_counting(old(sink).subject_count(),
            tally(context.trace(), |e: TraceEvent| verb_subject(e, "get"@)) as int),
        entry_seqs(final(sink).found()) == entry_seqs(old(sink).found())
            + sites(context.trace(), |e: TraceEvent| get_accept_site(e)),
        entry_views(final(sink).found()) == entry_views(old(sink).found())
            + entries(context.trace(), |e: TraceEvent| get_accept_entry(e)),
{
    sink.examined_many(0);
    let ghost events = context.trace();
    let ghost f = |e: TraceEvent| get_accept_site(e);
    let ghost h = |e: TraceEvent| get_accept_entry(e);
    let n = context.len();
    let ghost g = |e: TraceEvent| verb_subject(e, "get"@);
    let mut i: usize = 0;
    while i < n
        invariant
            n == events.len(),
            events == context.trace(),
            i <= n,
            f == (|e: TraceEvent| get_accept_site(e)),
            h == (|e: TraceEvent| get_accept_entry(e)),
            sink.check_id() == old(sink).check_id(),
            g == (|e: TraceEvent| verb_subject(e, "get"@)),
            sink.subject_count() == after_counting(old(sink).subject_count(), tally(events.take(i as int), g) as int),
            entry_seqs(sink.found()) == entry_seqs(old(sink).found()) + sites(events.take(i as int), f),
            entry_views(sink.found()) == entry_views(old(sink).found()) + entries(events.take(i as int), h),
        decreases n - i,
    {
        proof { lemma_sites_take(events, f, i as int); lemma_entries_take(events, h, i as int); lemma_tally_take(events, g, i as int); }
        let event = context.event(i);
        if event.direction == Direction::ClientToServer {
            if let EventBody::Http { method: Some(method), headers, .. } = &event.body {
                let lowered = lower_text(method.as_str());
                if text_eq(lowered.as_str(), "get") {
                    sink.examined();
                    match get_header(headers, "accept") {
                        None => {
                            sink.push(Some(event.seq), owned(
                                "client HTTP GET has no Accept header; a GET to the MCP endpoint must list text/event-stream"));
                        },
                        Some(accept) => {
                            if !offers_media(accept.as_str(), "text/event-stream") {
                                let mut d = owned("client GET Accept header ");
                                let q = debug_text(accept.as_str());
                                push_text(&mut d, q.as_str());
                                push_text(&mut d, " does not list text/event-stream");
                                sink.push(Some(event.seq), d);
                            }
                        },
                    }
                }
            }
        }
        i = i + 1;
    }
    proof { lemma_sites_all(events, f); lemma_entries_all(events, h); lemma_tally_all(events, g); }
}

/// The verb walk: the recorded request a client message rides (the nearest
/// preceding client HTTP event, when it recorded a method), and findings.
pub open spec fn verb_walk(events: Seq<TraceEvent>, n: nat) -> (Option<(u64, Seq<char>)>, Seq<Option<u64>>)
    decreases n,
{
    if n == 0 {
        (None, Seq::empty())
    } else {
        let (carrying, found) = verb_walk(events, (n - 1) as nat);
        let e = events[n - 1];
        if e.transport != TransportKind::StreamableHttp || e.direction != Direction::ClientToServer {
            (carrying, found)
        } else if e.body is Http {
            (match e.body {
                EventBody::Http { method: Some(m), .. } => Some((e.seq, m@)),
                _ => None,
            }, found)
        } else if e.body is Message {
            match carrying {
                Some((_, m)) => if ascii_lower(m) != "post"@ { (carrying, found.push(Some(e.seq))) } else { (carrying, found) },
                None => (carrying, found),
            }
        } else {
            (carrying, found)
        }
    }
}

/// The subjects among the first `n` events: client messages that rode a
/// recorded request.
pub open spec fn verb_subjects(events: Seq<TraceEvent>, n: nat) -> nat
    decreases n,
{
    if n == 0 {
        0
    } else {
        let e = events[n - 1];
        verb_subjects(events, (n - 1) as nat) + if e.transport == TransportKind::StreamableHttp
            && e.direction == Direction::ClientToServer && e.body is Message
            && verb_walk(events, (n - 1) as nat).0 is Some { 1nat } else { 0nat }
    }
}

/// The findings, as (seq, sentence), of the verb walk over the first `n`
/// events.
pub open spec fn verb_entries(events: Seq<TraceEvent>, n: nat) -> Seq<(Option<u64>, Seq<char>)>
    decreases n,
{
    if n == 0 {
        Seq::empty()
    } else {
        let prev = verb_entries(events, (n - 1) as nat);
        let e = events[n - 1];
        if e.transport == TransportKind::StreamableHttp && e.direction == Direction::ClientToServer
            && e.body is Message && (verb_walk(events, (n - 1) as nat).0 matches Some((s, m))
            && ascii_lower(m) != "post"@) {
            let (s, m) = verb_walk(events, (n - 1) as nat).0.unwrap();
            prev.push((Some(e.seq), "client JSON-RPC message rode an HTTP "@ + m + " request (seq "@
                + decimal(s as nat) + "); messages must be sent by POST"@))
        } else {
            prev
        }
    }
}

/// `TRAN-049`: every client JSON-RPC message travels by POST (the verb
/// compared without regard to case). The request a
/// message rode is the nearest preceding client HTTP event; a message with no
/// such recorded request carries no evidence about verbs.
pub fn client_messages_use_post(context: &TraceContext<'_>, sink: &mut FindingSink)
    ensures
        final(sink).check_id() == old(sink).check_id(),
        entry_seqs(final(sink).found()) == entry_seqs(old(sink).found())
            + verb_walk(context.trace(), context.trace().len() as nat).1,
        entry_views(final(sink).found()) == entry_views(old(sink).found())
            + verb_entries(context.trace(), context.trace().len() as nat),
        final(sink).subject_count() == after_counting(old(sink).subject_count(),
            verb_subjects(context.trace(), context.trace().len() as nat) as int),
{
    sink.examined_many(0);
    let ghost events = context.trace();
    let n = context.len();
    let mut carrying: Option<(u64, &str)> = None;
    let mut i: usize = 0;
    while i < n
        invariant
            n == events.len(),
            events == context.trace(),
            i <= n,
            match carrying {
                Some((s, m)) => verb_walk(events, i as nat).0 == Some((s, m@)),
                None => verb_walk(events, i as nat).0 is None,
            },
            sink.check_id() == old(sink).check_id(),
            entry_seqs(sink.found()) == entry_seqs(old(sink).found()) + verb_walk(events, i as nat).1,
            entry_views(sink.found()) == entry_views(old(sink).found()) + verb_entries(events, i as nat),
            sink.subject_count() == after_counting(old(sink).subject_count(), verb_subjects(events, i as nat) as int),
        decreases n - i,
    {
        let event = context.event(i);
        if event.transport == TransportKind::StreamableHttp && event.direction == Direction::ClientToServer {
            match &event.body {
                EventBody::Http { method, .. } => {
                    carrying = match method {
                        Some(m) => Some((event.seq, m.as_str())),
                        None => None,
                    };
                },
                EventBody::Message { .. } => {
                    if let Some((request_seq, method)) = carrying {
                        sink.examined();
                        let lowered = lower_text(method);
                        if !text_eq(lowered.as_str(), "post") {
                            let mut d = owned("client JSON-RPC message rode an HTTP ");
                            push_text(&mut d, method);
                            push_text(&mut d, " request (seq ");
                            let s = u64_text(request_seq);
                            push_text(&mut d, s.as_str());
                            push_text(&mut d, "); messages must be sent by POST");
                            sink.push(Some(event.seq), d);
                        }
                    }
                },
                _ => {},
            }
        }
        i = i + 1;
    }
}

} // verus!
