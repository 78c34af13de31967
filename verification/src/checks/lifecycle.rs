//! Checks for the `2025-11-25` session lifecycle requirements (`LIFE-*`).
//!
//! These lean on the context's precomputed phases: every check sees the
//! lifecycle phase *before* each event, the state the spec's ordering rules
//! are written against.

use vstd::prelude::*;
use crate::checks::sites::{ientries, entries, lemma_entries_take, lemma_entries_all};
use crate::checks::entry_views;
use crate::checks::{FindingSink, entry_seqs};
use crate::checks::sites::isites;
use crate::context::{Phase, TraceContext, InitRecord, life_after, message_ixs, is_initialized_note, lemma_ready_needs_initialized};
use crate::json::Json;
use crate::message::{MessageKind, Tag, spec_tag, classifies};
use crate::revision::{ProtocolRevision, revision_date};
use crate::text::{debug_quoted, owned, push_text, text_eq, debug_text};
use crate::trace::{Direction, TraceEvent};

verus! {

/// The request method of a message event, when it is a request.
pub open spec fn request_method(e: TraceEvent) -> Option<Seq<char>> {
    match e.payload() {
        Some(p) => if spec_tag(p) == Tag::Request { p.at("method"@).unwrap().text() } else { None },
        None => None,
    }
}

/// The first message, unless it is the client's `initialize` request.
pub open spec fn first_interaction_sites(events: Seq<TraceEvent>) -> Seq<Option<u64>> {
    if message_ixs(events).len() == 0 {
        Seq::empty()
    } else {
        let e = events[message_ixs(events)[0]];
        if e.direction == Direction::ClientToServer && request_method(e) == Some("initialize"@) {
            Seq::empty()
        } else {
            seq![Some(e.seq)]
        }
    }
}

/// The words describing a classification in finding details.
pub fn describe_kind(kind: &MessageKind<'_>) -> (r: &'static str)
    ensures
        r@ == match kind.tag() {
            Tag::Request => "a request"@,
            Tag::Notification => "a notification"@,
            Tag::Result => "a result response"@,
            Tag::Error => "an error response"@,
            Tag::Invalid => "not a valid JSON-RPC message"@,
        },
{
    match kind {
        MessageKind::Request { .. } => "a request",
        MessageKind::Notification { .. } => "a notification",
        MessageKind::Result { .. } => "a result response",
        MessageKind::Error { .. } => "an error response",
        MessageKind::Invalid { .. } => "not a valid JSON-RPC message",
    }
}

/// The words naming a direction in finding details.
pub fn direction_name(direction: Direction) -> (r: &'static str)
    ensures
        r@ == match direction {
            Direction::ClientToServer => "client to server"@,
            Direction::ServerToClient => "server to client"@,
        },
{
    match direction {
        Direction::ClientToServer => "client to server",
        Direction::ServerToClient => "server to client",
    }
}

/// The words describing a classification, as `describe_kind` gives them.
pub open spec fn tag_words(t: Tag) -> Seq<char> {
    match t {
        Tag::Request => "a request"@,
        Tag::Notification => "a notification"@,
        Tag::Result => "a result response"@,
        Tag::Error => "an error response"@,
        Tag::Invalid => "not a valid JSON-RPC message"@,
    }
}

/// The words naming a direction, as `direction_name` gives them.
pub open spec fn direction_words(d: Direction) -> Seq<char> {
    match d {
        Direction::ClientToServer => "client to server"@,
        Direction::ServerToClient => "server to client"@,
    }
}

/// The finding, as (seq, sentence), of a first message that is not the
/// client's `initialize` request.
pub open spec fn first_interaction_entries(events: Seq<TraceEvent>) -> Seq<(Option<u64>, Seq<char>)> {
    if first_interaction_sites(events).len() == 0 {
        Seq::empty()
    } else {
        let e = events[message_ixs(events)[0]];
        let p = e.payload().unwrap();
        seq![(Some(e.seq), "first message is "@ + if spec_tag(p) == Tag::Request && e.direction == Direction::ClientToServer {
            "a "@ + debug_quoted(request_method(e).unwrap()) + " request, expected \"initialize\""@
        } else {
            tag_words(spec_tag(p)) + " ("@ + direction_words(e.direction)
                + "), expected the client's \"initialize\" request"@
        })]
    }
}

/// `LIFE-001`: "The initialization phase MUST be the first interaction
/// between client and server": the first message must be the client's
/// `initialize` request. A trace with no message passes vacuously.
pub fn first_interaction_initialize(context: &TraceContext<'_>, sink: &mut FindingSink)
    ensures
        final(sink).check_id() == old(sink).check_id(),
        final(sink).subject_count() == old(sink).subject_count(),
        entry_seqs(final(sink).found()) == entry_seqs(old(sink).found()) + first_interaction_sites(context.trace()),
        entry_views(final(sink).found()) == entry_views(old(sink).found()) + first_interaction_entries(context.trace()),
{
    let ghost events = context.trace();
    let n = context.len();
    let mut i: usize = 0;
    while i < n
        invariant
            n == events.len(),
            events == context.trace(),
            i <= n,
            message_ixs(events.take(i as int)).len() == 0,
            sink.check_id() == old(sink).check_id(),
            sink.subject_count() == old(sink).subject_count(),
            sink.found() == old(sink).found(),
        decreases n - i,
    {
        proof { crate::context::lemma_message_ixs_take(events, i as int); }
        let event = context.event(i);
        if let Some(kind) = context.kind(i) {
            proof { lemma_first_message(events, i as int); }
            let is_initialize = match kind {
                MessageKind::Request { method, .. } => event.direction == Direction::ClientToServer
                    && text_eq(method, "initialize"),
                _ => false,
            };
            if !is_initialize {
                let mut d = owned("first message is ");
                match kind {
                    MessageKind::Request { method, .. } => {
                        if event.direction == Direction::ClientToServer {
                            push_text(&mut d, "a ");
                            let m = debug_text(method);
                            push_text(&mut d, m.as_str());
                            push_text(&mut d, " request, expected \"initialize\"");
                        } else {
                            push_text(&mut d, describe_kind(kind));
                            push_text(&mut d, " (");
                            push_text(&mut d, direction_name(event.direction));
                            push_text(&mut d, "), expected the client's \"initialize\" request");
                        }
                    },
                    _ => {
                        push_text(&mut d, describe_kind(kind));
                        push_text(&mut d, " (");
                        push_text(&mut d, direction_name(event.direction));
                        push_text(&mut d, "), expected the client's \"initialize\" request");
                    },
                }
                proof {
                    let e = events[i as int];
                    let p = e.payload().unwrap();
                    assert(message_ixs(events)[0] == i);
                    assert(first_interaction_sites(events).len() > 0);
                    assert(d@ == "first message is "@ + if spec_tag(p) == Tag::Request && e.direction == Direction::ClientToServer {
                        "a "@ + debug_quoted(request_method(e).unwrap()) + " request, expected \"initialize\""@
                    } else {
                        tag_words(spec_tag(p)) + " ("@ + direction_words(e.direction)
                            + "), expected the client's \"initialize\" request"@
                    });
                }
                sink.push(Some(event.seq), d);
            }
            assert(entry_views(sink.found()) =~= entry_views(old(sink).found()) + first_interaction_entries(events));
            return;
        }
        i = i + 1;
    }
    proof {
        assert(events.take(n as int) =~= events);
        assert(entry_views(sink.found()) =~= entry_views(old(sink).found()) + first_interaction_entries(events));
    }
}

/// The first message position is the first event with a payload.
proof fn lemma_first_message(events: Seq<TraceEvent>, i: int)
    requires
        0 <= i < events.len(),
        message_ixs(events.take(i)).len() == 0,
        events[i].payload() is Some,
    ensures
        message_ixs(events).len() > 0,
        message_ixs(events)[0] == i,
    decreases events.len(),
{
    if events.len() == i + 1 {
        assert(events.drop_last() =~= events.take(i));
    } else {
        assert(events.drop_last().take(i) =~= events.take(i));
        lemma_first_message(events.drop_last(), i);
        assert(events.drop_last()[i] == events[i]);
    }
}

/// Whether `member` of `params` is present with the wanted type.
pub open spec fn member_fits(params: Json, member: Seq<char>, object: bool) -> bool {
    match params.at(member) {
        Some(v) => if object { v is Object } else { v is Str },
        None => false,
    }
}

/// The findings of an `initialize` request's params: one when there are none,
/// else one per required member that is missing or mistyped.
pub open spec fn params_sites(init: InitRecord) -> Seq<Option<u64>> {
    match init.request {
        Some((seq, None)) => seq![Some(seq)],
        Some((seq, Some(params))) =>
            (if member_fits(params, "protocolVersion"@, false) { Seq::empty() } else { seq![Some(seq)] })
            + (if member_fits(params, "capabilities"@, true) { Seq::empty() } else { seq![Some(seq)] })
            + (if member_fits(params, "clientInfo"@, true) { Seq::empty() } else { seq![Some(seq)] }),
        None => Seq::empty(),
    }
}

/// The finding, as (seq, sentence), for `member` of the `initialize` params
/// when missing or mistyped; `expected` names the type it should have.
pub open spec fn member_entry(params: Json, member: Seq<char>, object: bool, expected: Seq<char>, seq: u64)
    -> Seq<(Option<u64>, Seq<char>)>
{
    match params.at(member) {
        None => seq![(Some(seq), "initialize params lack the "@ + member + " member"@)],
        Some(v) => if member_fits(params, member, object) {
            Seq::empty()
        } else {
            seq![(Some(seq), "initialize params member "@ + member + " should be "@ + expected)]
        },
    }
}

/// The findings, as (seq, sentence), of an `initialize` request's params.
pub open spec fn params_entries(init: InitRecord) -> Seq<(Option<u64>, Seq<char>)> {
    match init.request {
        Some((seq, None)) => seq![(Some(seq),
            "initialize request has no params; protocolVersion, capabilities, and clientInfo are required"@)],
        Some((seq, Some(params))) =>
            member_entry(params, "protocolVersion"@, false, "a string"@, seq)
            + member_entry(params, "capabilities"@, true, "an object"@, seq)
            + member_entry(params, "clientInfo"@, true, "an object"@, seq),
        None => Seq::empty(),
    }
}

/// Reports `member` of the `initialize` params when missing or mistyped.
fn expect_member(sink: &mut FindingSink, seq: u64, params: &Json, member: &str, object: bool, expected: &str)
    ensures
        final(sink).check_id() == old(sink).check_id(),
        final(sink).subject_count() == old(sink).subject_count(),
        entry_seqs(final(sink).found()) == entry_seqs(old(sink).found())
            + (if member_fits(*params, member@, object) { Seq::empty() } else { seq![Some(seq)] }),
        entry_views(final(sink).found()) == entry_views(old(sink).found())
            + member_entry(*params, member@, object, expected@, seq),
{
    match params.get(member) {
        None => {
            let mut d = owned("initialize params lack the ");
            push_text(&mut d, member);
            push_text(&mut d, " member");
            sink.push(Some(seq), d);
        },
        Some(value) => {
            let fits = if object { value.is_object() } else { value.is_string() };
            if !fits {
                let mut d = owned("initialize params member ");
                push_text(&mut d, member);
                push_text(&mut d, " should be ");
                push_text(&mut d, expected);
                sink.push(Some(seq), d);
            } else {
                assert(entry_seqs(sink.found()) =~= entry_seqs(old(sink).found()) + Seq::<Option<u64>>::empty());
                assert(entry_views(sink.found()) =~= entry_views(old(sink).found()) + Seq::<(Option<u64>, Seq<char>)>::empty());
            }
        },
    }
}

/// `LIFE-002`: the `initialize` request must carry `protocolVersion`,
/// `capabilities` and `clientInfo` params.
pub fn initialize_params(context: &TraceContext<'_>, sink: &mut FindingSink)
    ensures
        final(sink).check_id() == old(sink).check_id(),
        final(sink).subject_count() == old(sink).subject_count(),
        entry_seqs(final(sink).found()) == entry_seqs(old(sink).found()) + params_sites(life_after(context.trace()).init),
        entry_views(final(sink).found()) == entry_views(old(sink).found()) + params_entries(life_after(context.trace()).init),
{
    let init = context.initialize();
    match init.request {
        None => {
            assert(entry_seqs(sink.found()) =~= entry_seqs(old(sink).found()) + Seq::<Option<u64>>::empty());
            assert(entry_views(sink.found()) =~= entry_views(old(sink).found()) + Seq::<(Option<u64>, Seq<char>)>::empty());
        },
        Some((seq, None)) => {
            sink.push(Some(seq), owned(
                "initialize request has no params; protocolVersion, capabilities, and clientInfo are required"));
        },
        Some((seq, Some(params))) => {
            let ghost start = entry_seqs(sink.found());
            let ghost start_views = entry_views(sink.found());
            expect_member(sink, seq, params, "protocolVersion", false, "a string");
            expect_member(sink, seq, params, "capabilities", true, "an object");
            expect_member(sink, seq, params, "clientInfo", true, "an object");
            assert(entry_seqs(sink.found()) =~= start + params_sites(life_after(context.trace()).init));
            assert(entry_views(sink.found()) =~= start_views + params_entries(life_after(context.trace()).init));
        },
    }
}

/// The `initialize` result, when `notifications/initialized` never follows it.
pub open spec fn initialized_sites(init: InitRecord) -> Seq<Option<u64>> {
    match init.result {
        Some((seq, _)) => if init.initialized is None { seq![Some(seq)] } else { Seq::empty() },
        None => Seq::empty(),
    }
}

/// `LIFE-003`: "After successful initialization, the client MUST send an
/// `initialized` notification."
pub fn initialized_notification(context: &TraceContext<'_>, sink: &mut FindingSink)
    ensures
        final(sink).check_id() == old(sink).check_id(),
        crate::checks::extends_with(old(sink).found(), final(sink).found(), "the server answered initialize here, but no notifications/initialized notification follows in the trace"@),
        final(sink).subject_count() == old(sink).subject_count(),
        entry_seqs(final(sink).found()) == entry_seqs(old(sink).found()) + initialized_sites(life_after(context.trace()).init),
{
    let init = context.initialize();
    if let Some((result_seq, _)) = init.result {
        if init.initialized.is_none() {
            sink.push(Some(result_seq), owned(
                "the server answered initialize here, but no notifications/initialized notification follows in the trace"));
            return;
        }
    }
    assert(entry_seqs(sink.found()) =~= entry_seqs(old(sink).found()) + Seq::<Option<u64>>::empty());
}

/// A client request other than `initialize` or `ping` sent before the server
/// answered `initialize`.
pub open spec fn early_client_site(events: Seq<TraceEvent>, i: int) -> Seq<Option<u64>> {
    let e = events[i];
    let phase = life_after(events.take(i)).phase;
    if e.direction == Direction::ClientToServer
        && (phase == Phase::BeforeInitialize || phase == Phase::AwaitingInitializeResult)
        && (request_method(e) matches Some(m) && m != "initialize"@ && m != "ping"@) {
        seq![Some(e.seq)]
    } else {
        Seq::empty()
    }
}

/// The finding, as (seq, sentence), of `early_client_site`.
pub open spec fn early_client_entry(events: Seq<TraceEvent>, i: int) -> Seq<(Option<u64>, Seq<char>)> {
    if early_client_site(events, i).len() > 0 {
        seq![(Some(events[i].seq), "client sent a "@ + debug_quoted(crate::checks::discovery::request_method(events[i]).unwrap())
            + " request before the server responded to initialize"@)]
    } else {
        Seq::empty()
    }
}

/// `LIFE-004`: "The client SHOULD NOT send requests other than pings before
/// the server has responded to the `initialize` request."
pub fn client_requests_before_init_response(context: &TraceContext<'_>, sink: &mut FindingSink)
    ensures
        final(sink).check_id() == old(sink).check_id(),
        final(sink).subject_count() == old(sink).subject_count(),
        entry_seqs(final(sink).found()) == entry_seqs(old(sink).found())
            + isites(context.trace().len() as nat, |i: int| early_client_site(context.trace(), i)),
        entry_views(final(sink).found()) == entry_views(old(sink).found())
            + ientries(context.trace().len() as nat, |i: int| early_client_entry(context.trace(), i)),
{
    let ghost events = context.trace();
    let ghost f = |i: int| early_client_site(events, i);
    let ghost h = |i: int| early_client_entry(events, i);
    let n = context.len();
    let mut i: usize = 0;
    while i < n
        invariant
            n == events.len(),
            events == context.trace(),
            i <= n,
            f == (|i: int| early_client_site(events, i)),
            sink.check_id() == old(sink).check_id(),
            sink.subject_count() == old(sink).subject_count(),
            entry_seqs(sink.found()) == entry_seqs(old(sink).found()) + isites(i as nat, f),
            h == (|i: int| early_client_entry(events, i)),
            entry_views(sink.found()) == entry_views(old(sink).found()) + ientries(i as nat, h),
        decreases n - i,
    {
        let event = context.event(i);
        let phase = context.phase(i);
        if event.direction == Direction::ClientToServer
            && (phase == Phase::BeforeInitialize || phase == Phase::AwaitingInitializeResult) {
            if let Some(MessageKind::Request { method, .. }) = context.kind(i) {
                if !text_eq(method, "initialize") && !text_eq(method, "ping") {
                    let mut d = owned("client sent a ");
                    let m = debug_text(method);
                    push_text(&mut d, m.as_str());
                    push_text(&mut d, " request before the server responded to initialize");
                    sink.push(Some(event.seq), d);
                }
            }
        }
        i = i + 1;
    }
}

/// A server request other than `ping` sent before the session was ready.
pub open spec fn early_server_site(events: Seq<TraceEvent>, i: int) -> Seq<Option<u64>> {
    let e = events[i];
    if e.direction == Direction::ServerToClient && life_after(events.take(i)).phase != Phase::Ready
        && (request_method(e) matches Some(m) && m != "ping"@) {
        seq![Some(e.seq)]
    } else {
        Seq::empty()
    }
}

/// The finding, as (seq, sentence), of `early_server_site`.
pub open spec fn early_server_entry(events: Seq<TraceEvent>, i: int) -> Seq<(Option<u64>, Seq<char>)> {
    if early_server_site(events, i).len() > 0 {
        seq![(Some(events[i].seq), "server sent a "@ + debug_quoted(crate::checks::discovery::request_method(events[i]).unwrap())
            + " request before receiving the initialized notification"@)]
    } else {
        Seq::empty()
    }
}

/// Law: a server request other than `ping` that precedes every client
/// `notifications/initialized` in the trace — whatever else the handshake has
/// reached, the `initialize` result included — is reported at its own seq,
/// with the sentence naming its method.
pub proof fn lemma_early_server_request_reported(events: Seq<TraceEvent>, i: int)
    requires
        0 <= i < events.len(),
        events[i].direction == Direction::ServerToClient,
        crate::checks::discovery::request_method(events[i]) matches Some(m) && m != "ping"@,
        forall|k: int| 0 <= k < i ==> !is_initialized_note(#[trigger] events[k]),
    ensures
        early_server_site(events, i) == seq![Some(events[i].seq)],
        early_server_entry(events, i) == seq![(Some(events[i].seq), "server sent a "@
            + debug_quoted(crate::checks::discovery::request_method(events[i]).unwrap())
            + " request before receiving the initialized notification"@)],
{
    let prefix = events.take(i);
    lemma_ready_needs_initialized(prefix);
    if life_after(prefix).phase == Phase::Ready {
        let k = choose|k: int| 0 <= k < prefix.len() && is_initialized_note(#[trigger] prefix[k]);
        assert(prefix[k] == events[k]);
    }
}

/// Law: client messages, server messages that are not requests, and server
/// `ping` requests are never reported by the server-ordering rule; nor is
/// anything once the session is ready.
pub proof fn lemma_early_server_exempt(events: Seq<TraceEvent>, i: int)
    requires
        0 <= i < events.len(),
        events[i].direction == Direction::ClientToServer
            || crate::checks::discovery::request_method(events[i]) is None
            || crate::checks::discovery::request_method(events[i]) == Some("ping"@)
            || life_after(events.take(i)).phase == Phase::Ready,
    ensures
        early_server_site(events, i) == Seq::<Option<u64>>::empty(),
        early_server_entry(events, i) == Seq::<(Option<u64>, Seq<char>)>::empty(),
{
}

/// `LIFE-005`: "The server SHOULD NOT send requests other than pings and
/// logging before receiving the `initialized` notification." Logging travels
/// as a notification, which this requests-only check never flags.
pub fn server_requests_before_initialized(context: &TraceContext<'_>, sink: &mut FindingSink)
    ensures
        final(sink).check_id() == old(sink).check_id(),
        final(sink).subject_count() == old(sink).subject_count(),
        entry_seqs(final(sink).found()) == entry_seqs(old(sink).found())
            + isites(context.trace().len() as nat, |i: int| early_server_site(context.trace(), i)),
        entry_views(final(sink).found()) == entry_views(old(sink).found())
            + ientries(context.trace().len() as nat, |i: int| early_server_entry(context.trace(), i)),
{
    let ghost events = context.trace();
    let ghost f = |i: int| early_server_site(events, i);
    let ghost h = |i: int| early_server_entry(events, i);
    let n = context.len();
    let mut i: usize = 0;
    while i < n
        invariant
            n == events.len(),
            events == context.trace(),
            i <= n,
            f == (|i: int| early_server_site(events, i)),
            sink.check_id() == old(sink).check_id(),
            sink.subject_count() == old(sink).subject_count(),
            entry_seqs(sink.found()) == entry_seqs(old(sink).found()) + isites(i as nat, f),
            h == (|i: int| early_server_entry(events, i)),
            entry_views(sink.found()) == entry_views(old(sink).found()) + ientries(i as nat, h),
        decreases n - i,
    {
        let event = context.event(i);
        let phase = context.phase(i);
        if event.direction == Direction::ServerToClient && phase != Phase::Ready {
            if let Some(MessageKind::Request { method, .. }) = context.kind(i) {
                if !text_eq(method, "ping") {
                    let mut d = owned("server sent a ");
                    let m = debug_text(method);
                    push_text(&mut d, m.as_str());
                    push_text(&mut d, " request before receiving the initialized notification");
                    sink.push(Some(event.seq), d);
                }
            }
        }
        i = i + 1;
    }
}

/// The `initialize` request, when its `protocolVersion` is missing or not a
/// string.
pub open spec fn protocol_version_sites(init: InitRecord) -> Seq<Option<u64>> {
    match init.request {
        Some((seq, params)) => {
            let fits = match params {
                Some(p) => p.at("protocolVersion"@) matches Some(v) && v is Str,
                None => false,
            };
            if fits { Seq::empty() } else { seq![Some(seq)] }
        },
        None => Seq::empty(),
    }
}

/// The finding, as (seq, sentence), of an `initialize` request whose
/// `protocolVersion` is missing or not a string.
pub open spec fn protocol_version_entries(init: InitRecord) -> Seq<(Option<u64>, Seq<char>)> {
    match init.request {
        Some((seq, params)) => {
            let version = match params {
                Some(p) => p.at("protocolVersion"@),
                None => None,
            };
            match version {
                None => seq![(Some(seq), "initialize request sends no protocolVersion"@)],
                Some(v) => if v is Str {
                    Seq::empty()
                } else {
                    seq![(Some(seq), "initialize request protocolVersion is "@ + crate::json::json_text(v)
                        + ", expected a version string"@)]
                },
            }
        },
        None => Seq::empty(),
    }
}

/// `LIFE-007`: "In the `initialize` request, the client MUST send a protocol
/// version it supports": presence and string-ness are what the wire shows.
pub fn initialize_protocol_version(context: &TraceContext<'_>, sink: &mut FindingSink)
    ensures
        final(sink).check_id() == old(sink).check_id(),
        final(sink).subject_count() == old(sink).subject_count(),
        entry_seqs(final(sink).found()) == entry_seqs(old(sink).found()) + protocol_version_sites(life_after(context.trace()).init),
        entry_views(final(sink).found()) == entry_views(old(sink).found()) + protocol_version_entries(life_after(context.trace()).init),
{
    let init = context.initialize();
    if let Some((seq, params)) = init.request {
        let version = match params {
            Some(p) => p.get("protocolVersion"),
            None => None,
        };
        match version {
            None => {
                sink.push(Some(seq), owned("initialize request sends no protocolVersion"));
                return;
            },
            Some(v) => {
                if !v.is_string() {
                    let mut d = owned("initialize request protocolVersion is ");
                    let t = v.to_text();
                    push_text(&mut d, t.as_str());
                    push_text(&mut d, ", expected a version string");
                    sink.push(Some(seq), d);
                    return;
                }
            },
        }
    }
    assert(entry_seqs(sink.found()) =~= entry_seqs(old(sink).found()) + Seq::<Option<u64>>::empty());
    assert(entry_views(sink.found()) =~= entry_views(old(sink).found()) + Seq::<(Option<u64>, Seq<char>)>::empty());
}

/// The `initialize` result, when its `protocolVersion` is missing, not a
/// string, or not a dated revision identifier.
pub open spec fn result_version_sites(init: InitRecord) -> Seq<Option<u64>> {
    match init.result {
        Some((seq, result)) => if result.at("protocolVersion"@) matches Some(v)
            && v.text() matches Some(t) && revision_date(t) {
            Seq::empty()
        } else {
            seq![Some(seq)]
        },
        None => Seq::empty(),
    }
}

/// The finding, as (seq, sentence), of an `initialize` result whose
/// `protocolVersion` is missing, not a string, or not a dated revision
/// identifier.
pub open spec fn result_version_entries(init: InitRecord) -> Seq<(Option<u64>, Seq<char>)> {
    match init.result {
        Some((seq, result)) => match result.at("protocolVersion"@) {
            None => seq![(Some(seq), "initialize result lacks the protocolVersion member"@)],
            Some(v) => match v.text() {
                Some(t) => if revision_date(t) {
                    Seq::empty()
                } else {
                    seq![(Some(seq), "initialize result protocolVersion "@ + debug_quoted(t)
                        + " is not a dated revision identifier (YYYY-MM-DD)"@)]
                },
                None => seq![(Some(seq), "initialize result protocolVersion is "@ + crate::json::json_text(v)
                    + ", expected a revision string"@)],
            },
        },
        None => Seq::empty(),
    }
}

/// `LIFE-006`: the server's `initialize` result must carry a
/// `protocolVersion` that is a dated revision identifier.
pub fn initialize_result_version(context: &TraceContext<'_>, sink: &mut FindingSink)
    ensures
        final(sink).check_id() == old(sink).check_id(),
        final(sink).subject_count() == old(sink).subject_count(),
        entry_seqs(final(sink).found()) == entry_seqs(old(sink).found()) + result_version_sites(life_after(context.trace()).init),
        entry_views(final(sink).found()) == entry_views(old(sink).found()) + result_version_entries(life_after(context.trace()).init),
{
    let init = context.initialize();
    if let Some((seq, result)) = init.result {
        match result.get("protocolVersion") {
            None => {
                sink.push(Some(seq), owned("initialize result lacks the protocolVersion member"));
                return;
            },
            Some(v) => match v.as_str() {
                Some(version) => {
                    if ProtocolRevision::parse(version).is_none() {
                        let mut d = owned("initialize result protocolVersion ");
                        let q = debug_text(version);
                        push_text(&mut d, q.as_str());
                        push_text(&mut d, " is not a dated revision identifier (YYYY-MM-DD)");
                        sink.push(Some(seq), d);
                        return;
                    }
                },
                None => {
                    let mut d = owned("initialize result protocolVersion is ");
                    let t = v.to_text();
                    push_text(&mut d, t.as_str());
                    push_text(&mut d, ", expected a revision string");
                    sink.push(Some(seq), d);
                    return;
                },
            },
        }
    }
    assert(entry_seqs(sink.found()) =~= entry_seqs(old(sink).found()) + Seq::<Option<u64>>::empty());
    assert(entry_views(sink.found()) =~= entry_views(old(sink).found()) + Seq::<(Option<u64>, Seq<char>)>::empty());
}

/// The `initialize` result's `capabilities` and `serverInfo` members, each
/// when missing or not an object.
pub open spec fn result_shape_sites(init: InitRecord) -> Seq<Option<u64>> {
    match init.result {
        Some((seq, result)) =>
            (if result.at("capabilities"@) matches Some(v) && v is Object { Seq::empty() } else { seq![Some(seq)] })
            + (if result.at("serverInfo"@) matches Some(v) && v is Object { Seq::empty() } else { seq![Some(seq)] }),
        None => Seq::empty(),
    }
}

/// The finding, as (seq, sentence), of an `initialize` result member that is
/// missing or not an object; `label` names what it carries.
pub open spec fn object_entry(result: Json, member: Seq<char>, label: Seq<char>, seq: u64) -> Seq<(Option<u64>, Seq<char>)> {
    match result.at(member) {
        None => seq![(Some(seq), "initialize result lacks "@ + label + ": no "@ + member + " member"@)],
        Some(v) => if v is Object {
            Seq::empty()
        } else {
            seq![(Some(seq), "initialize result "@ + member + " is "@ + crate::json::json_text(v)
                + ", expected an object"@)]
        },
    }
}

/// The findings, as (seq, sentence), of the `initialize` result's
/// `capabilities` and `serverInfo` members.
pub open spec fn result_shape_entries(init: InitRecord) -> Seq<(Option<u64>, Seq<char>)> {
    match init.result {
        Some((seq, result)) => object_entry(result, "capabilities"@, "its capabilities"@, seq)
            + object_entry(result, "serverInfo"@, "its implementation information (serverInfo)"@, seq),
        None => Seq::empty(),
    }
}

/// Reports a result member that is missing or not an object.
fn expect_object(sink: &mut FindingSink, seq: u64, result: &Json, member: &str, label: &str)
    ensures
        final(sink).check_id() == old(sink).check_id(),
        final(sink).subject_count() == old(sink).subject_count(),
        entry_seqs(final(sink).found()) == entry_seqs(old(sink).found())
            + (if result.at(member@) matches Some(v) && v is Object { Seq::empty() } else { seq![Some(seq)] }),
        entry_views(final(sink).found()) == entry_views(old(sink).found()) + object_entry(*result, member@, label@, seq),
{
    match result.get(member) {
        None => {
            let mut d = owned("initialize result lacks ");
            push_text(&mut d, label);
            push_text(&mut d, ": no ");
            push_text(&mut d, member);
            push_text(&mut d, " member");
            sink.push(Some(seq), d);
        },
        Some(value) => {
            if !value.is_object() {
                let mut d = owned("initialize result ");
                push_text(&mut d, member);
                push_text(&mut d, " is ");
                let t = value.to_text();
                push_text(&mut d, t.as_str());
                push_text(&mut d, ", expected an object");
                sink.push(Some(seq), d);
            } else {
                assert(entry_seqs(sink.found()) =~= entry_seqs(old(sink).found()) + Seq::<Option<u64>>::empty());
                assert(entry_views(sink.found()) =~= entry_views(old(sink).found()) + Seq::<(Option<u64>, Seq<char>)>::empty());
            }
        },
    }
}

/// `LIFE-010`: the initialize result must carry the server's capabilities and
/// implementation information (`capabilities` and `serverInfo` objects).
pub fn initialize_result_shape(context: &TraceContext<'_>, sink: &mut FindingSink)
    ensures
        final(sink).check_id() == old(sink).check_id(),
        final(sink).subject_count() == old(sink).subject_count(),
        entry_seqs(final(sink).found()) == entry_seqs(old(sink).found()) + result_shape_sites(life_after(context.trace()).init),
        entry_views(final(sink).found()) == entry_views(old(sink).found()) + result_shape_entries(life_after(context.trace()).init),
{
    let init = context.initialize();
    match init.result {
        Some((seq, result)) => {
            let ghost start = entry_seqs(sink.found());
            let ghost start_views = entry_views(sink.found());
            expect_object(sink, seq, result, "capabilities", "its capabilities");
            expect_object(sink, seq, result, "serverInfo", "its implementation information (serverInfo)");
            assert(entry_seqs(sink.found()) =~= start + result_shape_sites(life_after(context.trace()).init));
            assert(entry_views(sink.found()) =~= start_views + result_shape_entries(life_after(context.trace()).init));
        },
        None => {
            assert(entry_seqs(sink.found()) =~= entry_seqs(old(sink).found()) + Seq::<Option<u64>>::empty());
            assert(entry_views(sink.found()) =~= entry_views(old(sink).found()) + Seq::<(Option<u64>, Seq<char>)>::empty());
        },
    }
}

} // verus!
