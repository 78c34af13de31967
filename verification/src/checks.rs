//! Checks: what one is, and what every one of them promises.
//!
//! A *check* is a pure function from a [`TraceContext`] to findings, registered
//! under a stable ID that requirement-registry entries reference. Findings are
//! emitted in event order.

use vstd::prelude::*;
use crate::report::{Finding, finding_seqs};
use crate::text::{owned, text_eq};
use crate::context::TraceContext;
use crate::checks::sites::sites;
use crate::checks::envelope::{CodeRule, rule_site, in_flight_after, result_type_site};
use crate::trace::TraceEvent;
use crate::checks::discovery::{implemented_site, probe_first_sites};
use crate::checks::meta_key::meta_key_site;
use crate::checks::versioning::{retry_sites, extension_site, refusal_sites};
use crate::context::exchange_ixs;
use crate::checks::sites::{xsites, isites};
use crate::checks::transport::trace_posts;
use crate::checks::headers::{version_missing_site, version_body_site, metadata_site, encoding_site, case_site,
    mirror_rule_site, MirrorRule, mirrored_sites, tool_name_sites};
use crate::checks::designation::tool_definitions;
use crate::checks::validation::{unrejected_fault_site, HeaderFault, status_code_site, unvalidated_site,
    unsupported_sites, unknown_method_sites};
use crate::checks::stream::{client_response_site, server_request_site, buffering_site, cancel_walk};
use crate::checks::stdio::{unnamed_cancel_site, note_walk};
use crate::checks::base::{bad_id_site, null_id_site, first_use_walk, correlation_walk, notification_id_site, error_shape_site, code_type_site, missing_result_site, version_site};
use crate::checks::features::{order_walk, range_site, empty_contents_site};
use crate::checks::subscriptions::{unrequested_site as sub_unrequested_site, ack_walk, close_site};
use crate::checks::mrtr::{unsupported_site, request_methods_site, empty_round_site, carries_site, echoed_site,
    unsolicited_site, reused_id_site, scoped_site, reasked_site};
use crate::checks::caching::{hint_site, ttl_site, scope_walk};
use crate::checks::pagination::{cursor_walk, by_request_seq};
use crate::checks::logging::{unrequested_site, subscription_log_site, invalid_level_site};
use crate::checks::trace_context::trace_context_site;
use crate::checks::meta::{required_fields_site, unrejected_site, status_error_site,
    capability_error_site, reliance_site, untagged_site};
use crate::checks::capabilities::{undeclared_sites, undeclared_log_site, declares_spec, unserved_list_sites, embedded_site};

pub mod sites;
pub mod base64;
pub mod envelope;
pub mod discovery;
pub mod meta_key;
pub mod base;
pub mod lifecycle;
pub mod negotiation;
pub mod tools;
pub mod prompts;
pub mod resources;
pub mod utilities;
pub mod bindings;
pub mod versioning;
pub mod caching;
pub mod pagination;
pub mod support;
pub mod logging;
pub mod capabilities;
pub mod trace_context;
pub mod meta;
pub mod mrtr;
pub mod subscriptions;
pub mod designation;
pub mod features;
pub mod transport;
pub mod headers;
pub mod validation;
pub mod stream;
pub mod stdio;

verus! {

/// The seqs of a sink's entries, in order.
pub open spec fn entry_seqs(entries: Seq<(Option<u64>, String)>) -> Seq<Option<u64>> {
    entries.map_values(|e: (Option<u64>, String)| e.0)
}

/// A sink's entries as (seq, detail sentence).
pub open spec fn entry_views(entries: Seq<(Option<u64>, String)>) -> Seq<(Option<u64>, Seq<char>)> {
    entries.map_values(|e: (Option<u64>, String)| (e.0, e.1@))
}

/// `after` extends `before`, and every entry it adds carries the sentence
/// `detail`.
pub open spec fn extends_with(before: Seq<(Option<u64>, String)>, after: Seq<(Option<u64>, String)>, detail: Seq<char>) -> bool {
    &&& before.len() <= after.len()
    &&& forall|i: int| 0 <= i < before.len() ==> after[i] == before[i]
    &&& forall|i: int| before.len() <= i < after.len() ==> (#[trigger] after[i]).1@ == detail
}

/// Entries added under one sentence are their seqs, each with that sentence.
pub proof fn lemma_uniform_details(
    before: Seq<(Option<u64>, String)>,
    after: Seq<(Option<u64>, String)>,
    detail: Seq<char>,
    added: Seq<Option<u64>>,
)
    requires
        extends_with(before, after, detail),
        entry_seqs(after) == entry_seqs(before) + added,
    ensures
        entry_views(after) == entry_views(before) + added.map_values(|s: Option<u64>| (s, detail)),
{
    assert(entry_seqs(after).len() == after.len());
    assert forall|i: int| 0 <= i < after.len() implies #[trigger] entry_views(after)[i]
        == (entry_views(before) + added.map_values(|s: Option<u64>| (s, detail)))[i] by {
        if i < before.len() {
            assert(after[i] == before[i]);
        } else {
            assert(entry_seqs(after)[i] == added[i - before.len()]);
            assert(after[i].1@ == detail);
        }
    }
    assert(entry_views(after) =~= entry_views(before) + added.map_values(|s: Option<u64>| (s, detail)));
}

/// Findings as (seq, detail sentence).
pub open spec fn finding_views(findings: Seq<Finding>) -> Seq<(Option<u64>, Seq<char>)> {
    findings.map_values(|f: Finding| (f.seq, f.detail@))
}

/// The one sentence every finding of a check carries, for the checks that
/// report a single kind of fault.
pub open spec fn uniform_detail(run: CheckRun) -> Option<Seq<char>> {
    match run {
        CheckRun::DiscoverImplemented => Some("`server/discover` was answered with -32601 (method not found); 2026-07-28 servers must implement it"@),
        CheckRun::InitializeErrorNamesVersions => Some("the error refusing `initialize` names no protocol version, leaving a legacy client — which has no fall-forward mechanism — nothing to surface"@),
        CheckRun::LogLevelRequested => Some("server emitted `notifications/message` though no request in this session carried `io.modelcontextprotocol/logLevel`"@),
        CheckRun::LogNotOnSubscription => Some("`notifications/message` carries a subscription id, so it is travelling on a `subscriptions/listen` stream; logging is request-scoped"@),
        CheckRun::LoggingDeclared => Some("server emitted `notifications/message` while its `server/discover` result declared no `logging` capability"@),
        CheckRun::EmbeddedResourceDeclared => Some("a `tools/call` result embeds a resource while the `server/discover` result declared no `resources` capability"@),
        CheckRun::InputRequiredHasContent => Some("`input_required` carries neither `inputRequests` nor `requestState`, so the round it opens cannot be completed"@),
        CheckRun::NoUnsolicitedState => Some("the request carries a `requestState` that no `input_required` before it issued"@),
        CheckRun::ReadContentsNonEmpty => Some("`resources/read` answered with an empty `contents` array, which is ambiguous between an empty resource and a missing one"@),
        CheckRun::VersionHeaderPresent => Some("client POST lacks the MCP-Protocol-Version header"@),
        CheckRun::ClientNoResponses => Some("client sent a JSON-RPC response; 2026-07-28 removed server-initiated requests, so there is nothing for one to answer"@),
        CheckRun::AccelBufferingHeader => Some("SSE response does not carry `X-Accel-Buffering: no`"@),
        CheckRun::CancelNotificationReferencesRequest => Some("`notifications/cancelled` carries no `params.requestId`, so it names no request to cancel"@),
        CheckRun::ProtocolVersionHeader => Some("client HTTP request after initialization lacks the MCP-Protocol-Version header"@),
        CheckRun::CompletionCapabilityDeclared => Some("server answered completion/complete without declaring the completions capability"@),
        CheckRun::LoggingCapabilityDeclared => Some("server emitted a log message notification without declaring the logging capability"@),
        CheckRun::InitializedNotification => Some("the server answered initialize here, but no notifications/initialized notification follows in the trace"@),
        CheckRun::ResultField => Some("response-shaped message (id present, no method) carries no result field"@),
        _ => None,
    }
}

/// The findings, as (seq, sentence), of the checks whose sentences this build
/// states; `None` for the others.
pub open spec fn check_entries(run: CheckRun, events: Seq<TraceEvent>, pairs: Seq<Option<usize>>)
    -> Option<Seq<(Option<u64>, Seq<char>)>>
{
    match run {
        _ if uniform_detail(run) is Some => Some(check_sites(run, events, pairs).map_values(
            |s: Option<u64>| (s, uniform_detail(run).unwrap()))),
        CheckRun::DeterministicOrder => Some(crate::checks::features::order_entries(events,
            exchange_ixs(events, pairs, Some("tools/list"@), events.len() as nat))),
        CheckRun::ClientPostAcceptHeader => Some(crate::checks::sites::entries(events,
            |e: TraceEvent| crate::checks::bindings::post_accept_entry(e))),
        CheckRun::EmbeddedResourceShape => Some(crate::checks::sites::xentries(crate::checks::prompts::get_ixs(events, pairs),
            |x: (int, int)| crate::checks::prompts::embedded_entries(crate::checks::prompts::prompt_contents(events, x), events[x.1].seq))),
        CheckRun::NoUndeclaredReliance => Some(crate::checks::sites::entries(events,
            |e: TraceEvent| crate::checks::meta::reliance_entry(events, e))),
        CheckRun::HeaderIntegerRange => Some(crate::checks::sites::entries(events,
            |e: TraceEvent| crate::checks::features::range_entry(events, e))),
        CheckRun::RequestIdType => Some(crate::checks::sites::entries(events,
            |e: TraceEvent| crate::checks::base::bad_id_entry(e))),
        CheckRun::RequestIdNotNull => Some(crate::checks::sites::entries(events,
            |e: TraceEvent| crate::checks::base::null_id_entry(e))),
        CheckRun::NotificationNoId => Some(crate::checks::sites::entries(events,
            |e: TraceEvent| crate::checks::base::notification_id_entry(e))),
        CheckRun::ErrorCodeInteger => Some(crate::checks::sites::entries(events,
            |e: TraceEvent| crate::checks::base::code_type_entry(e))),
        CheckRun::ErrorShape => Some(crate::checks::sites::entries(events,
            |e: TraceEvent| crate::checks::base::error_shape_entry(e))),
        CheckRun::CompletionsDeclared => Some(crate::checks::capabilities::undeclared_entries(events, pairs, "completions"@, "completion/complete"@)),
        CheckRun::ToolsDeclared => Some(crate::checks::capabilities::undeclared_entries(events, pairs, "tools"@, "tools/list"@) + crate::checks::capabilities::undeclared_entries(events, pairs, "tools"@, "tools/call"@)),
        CheckRun::ResourcesDeclared => Some(crate::checks::capabilities::undeclared_entries(events, pairs, "resources"@, "resources/list"@) + crate::checks::capabilities::undeclared_entries(events, pairs, "resources"@, "resources/templates/list"@) + crate::checks::capabilities::undeclared_entries(events, pairs, "resources"@, "resources/read"@)),
        CheckRun::PromptsDeclared => Some(crate::checks::capabilities::undeclared_entries(events, pairs, "prompts"@, "prompts/list"@) + crate::checks::capabilities::undeclared_entries(events, pairs, "prompts"@, "prompts/get"@)),
        CheckRun::ToolsListImplemented => Some(crate::checks::capabilities::unserved_entries(events, pairs, "tools"@, "tools/list"@)),
        CheckRun::ResourcesListImplemented => Some(crate::checks::capabilities::unserved_entries(events, pairs, "resources"@, "resources/list"@)),
        CheckRun::PromptsListImplemented => Some(crate::checks::capabilities::unserved_entries(events, pairs, "prompts"@, "prompts/list"@)),
        CheckRun::HeaderMismatchStatus => Some(crate::checks::sites::entries(events,
            |e: TraceEvent| crate::checks::validation::status_code_entry(events, e, -32020, 400, "HeaderMismatch"@))),
        CheckRun::UnknownMethod404 => Some(crate::checks::validation::unknown_method_entries(events)),
        CheckRun::MissingFieldHttpStatus => Some(crate::checks::sites::entries(events,
            |e: TraceEvent| crate::checks::meta::status_error_entry(events, -32602, e, "missing required `_meta` field"@))),
        CheckRun::MissingCapabilityHttpStatus => Some(crate::checks::sites::entries(events,
            |e: TraceEvent| crate::checks::meta::status_error_entry(events, -32021, e, "missing required client capability"@))),
        CheckRun::ErrorCode(rule) => Some(crate::checks::sites::entries(events,
            |e: TraceEvent| crate::checks::envelope::rule_entry(rule, e))),
        CheckRun::ImageContentEncoding => Some(crate::checks::sites::xentries(crate::checks::prompts::get_ixs(events, pairs),
            |x: (int, int)| crate::checks::prompts::binary_entries(crate::checks::prompts::prompt_contents(events, x), "image"@, events[x.1].seq))),
        CheckRun::AudioContentEncoding => Some(crate::checks::sites::xentries(crate::checks::prompts::get_ixs(events, pairs),
            |x: (int, int)| crate::checks::prompts::binary_entries(crate::checks::prompts::prompt_contents(events, x), "audio"@, events[x.1].seq))),
        CheckRun::SessionIdVisibleAscii => Some(crate::checks::sites::entries(events,
            |e: TraceEvent| crate::checks::bindings::session_charset_entry(e))),
        CheckRun::ClientGetAcceptHeader => Some(crate::checks::sites::entries(events,
            |e: TraceEvent| crate::checks::bindings::get_accept_entry(e))),
        CheckRun::ProtocolVersionNegotiated => Some(crate::checks::bindings::negotiated_entries(events)),
        CheckRun::CacheTtl => Some(crate::checks::sites::entries(events, |e: TraceEvent| crate::checks::caching::ttl_entry(e))),
        CheckRun::ResultTypePresent => Some(crate::checks::sites::entries(events, |e: TraceEvent| crate::checks::envelope::result_type_entry(e))),
        CheckRun::RequiredRequestFields => Some(crate::checks::sites::entries(events, |e: TraceEvent| crate::checks::meta::required_fields_entry(e))),
        CheckRun::MissingCapabilityError => Some(crate::checks::sites::entries(events, |e: TraceEvent| crate::checks::meta::capability_error_entry(e))),
        CheckRun::MissingFieldRejected => Some(crate::checks::sites::entries(events, |e: TraceEvent| crate::checks::meta::unrejected_entry(events, e))),
        CheckRun::SubscriptionIdPresent => Some(crate::checks::sites::entries(events, |e: TraceEvent| crate::checks::meta::untagged_entry(events, e))),
        CheckRun::NoIndependentServerRequests => Some(crate::checks::sites::entries(events, |e: TraceEvent| crate::checks::stream::server_request_entry(e))),
        CheckRun::StateScopedToRetry => Some(crate::checks::sites::entries(events, |e: TraceEvent| crate::checks::mrtr::scoped_entry(events, pairs, e))),
        CheckRun::TraceContextFormat => Some(crate::checks::sites::entries(events, |e: TraceEvent| crate::checks::trace_context::trace_context_entry(e))),
        CheckRun::MetaKeyFormat => Some(crate::checks::sites::entries(events, |e: TraceEvent| crate::checks::meta_key::meta_key_entry(e))),
        CheckRun::ExtensionIdentifierFormat => Some(crate::checks::sites::entries(events, |e: TraceEvent| crate::checks::versioning::extension_entry(e))),
        CheckRun::JsonrpcVersion => Some(crate::checks::sites::entries(events, |e: TraceEvent| crate::checks::base::version_entry(e))),
        CheckRun::InitializeParams => Some(crate::checks::lifecycle::params_entries(crate::context::life_after(events).init)),
        CheckRun::ClientRequestsBeforeInitResponse => Some(crate::checks::sites::ientries(events.len() as nat, |i: int| crate::checks::lifecycle::early_client_entry(events, i))),
        CheckRun::ServerRequestsBeforeInitialized => Some(crate::checks::sites::ientries(events.len() as nat, |i: int| crate::checks::lifecycle::early_server_entry(events, i))),
        CheckRun::InitializeProtocolVersion => Some(crate::checks::lifecycle::protocol_version_entries(crate::context::life_after(events).init)),
        CheckRun::InitializeResultVersion => Some(crate::checks::lifecycle::result_version_entries(crate::context::life_after(events).init)),
        CheckRun::InitializeResultShape => Some(crate::checks::lifecycle::result_shape_entries(crate::context::life_after(events).init)),
        CheckRun::FirstInteractionInitialize => Some(crate::checks::lifecycle::first_interaction_entries(events)),
        CheckRun::InputSchemaObject => Some(crate::checks::sites::xentries(crate::checks::tools::list_ixs(events, pairs),
            |x: (int, int)| crate::checks::tools::per_item_entries(crate::checks::tools::listed(events, x), events[x.1].seq,
                |t: crate::json::Json| crate::checks::tools::schema_bad(t),
                |t: crate::json::Json| "tool "@ + crate::checks::tools::name_label_text(crate::checks::tools::tool_name(t))
                    + " has an inputSchema that is not a JSON Schema object: "@ + crate::json::json_text(t.at("inputSchema"@).unwrap())))),
        CheckRun::NameLength => Some(crate::checks::sites::xentries(crate::checks::tools::list_ixs(events, pairs),
            |x: (int, int)| crate::checks::tools::per_item_entries(crate::checks::tools::listed(events, x), events[x.1].seq,
                |t: crate::json::Json| crate::checks::tools::length_bad(t),
                |t: crate::json::Json| "tool name "@ + crate::text::debug_quoted(crate::checks::tools::tool_name(t).unwrap()) + " is "@
                    + crate::text::decimal(crate::checks::tools::tool_name(t).unwrap().len()) + " characters long, expected 1 to 128"@))),
        CheckRun::ToolsCapabilityDeclared => Some(if crate::checks::support::server_declaration(events, seq!["tools"@]) == crate::checks::support::Declaration::Withheld {
            crate::checks::sites::xentries(exchange_ixs(events, pairs, None, events.len() as nat),
                |x: (int, int)| crate::checks::tools::served_tools_entry(events, x))
        } else {
            Seq::empty()
        }),
        CheckRun::ResourcesCapabilityDeclared => Some(if crate::checks::support::server_declaration(events, seq!["resources"@]) == crate::checks::support::Declaration::Withheld {
            crate::checks::sites::xentries(exchange_ixs(events, pairs, None, events.len() as nat),
                |x: (int, int)| crate::checks::resources::served_resources_entry(events, x))
        } else {
            Seq::empty()
        }),
        CheckRun::PromptsCapabilityDeclared => Some(if crate::checks::support::server_declaration(events, seq!["prompts"@]) == crate::checks::support::Declaration::Withheld {
            crate::checks::sites::xentries(exchange_ixs(events, pairs, None, events.len() as nat),
                |x: (int, int)| crate::checks::prompts::served_prompts_entry(events, x))
        } else {
            Seq::empty()
        }),
        CheckRun::StructuredContentText => Some(crate::checks::sites::xentries(crate::checks::tools::call_ixs(events, pairs),
            |x: (int, int)| crate::checks::tools::fallback_entry(events, x))),
        CheckRun::EmbeddedResourceCapability => Some(if crate::checks::support::server_declaration(events, seq!["resources"@]) == crate::checks::support::Declaration::Withheld {
            crate::checks::sites::xentries(crate::checks::tools::call_ixs(events, pairs), |x: (int, int)| crate::checks::tools::embedded_entry(events, x))
        } else {
            Seq::empty()
        }),
        CheckRun::SessionIdEchoed => Some(crate::checks::bindings::echo_entries(events)),
        CheckRun::ClientMessagesUsePost => Some(crate::checks::bindings::verb_entries(events, events.len() as nat)),
        CheckRun::CacheHints => Some(crate::checks::sites::xentries(exchange_ixs(events, pairs, None, events.len() as nat),
            |x: (int, int)| crate::checks::caching::hint_entry(events, x))),
        CheckRun::LogInvalidLevel => Some(crate::checks::sites::xentries(exchange_ixs(events, pairs, None, events.len() as nat),
            |x: (int, int)| crate::checks::logging::invalid_level_entry(events, x))),
        CheckRun::InvalidCursor => Some(crate::checks::pagination::cursor_entries(events,
            crate::checks::pagination::by_request_seq(events, exchange_ixs(events, pairs, None, events.len() as nat)))),
        _ => None,
    }
}

/// Collects findings on behalf of one check, stamping each with the check ID
/// when the check is done.
pub struct FindingSink {
    check: &'static str,
    entries: Vec<(Option<u64>, String)>,
    subjects: Option<u32>,
}

impl FindingSink {
    /// The check the findings are stamped with.
    pub closed spec fn check_id(self) -> Seq<char> {
        self.check@
    }

    /// The findings so far, as (seq, detail).
    pub closed spec fn found(self) -> Seq<(Option<u64>, String)> {
        self.entries@
    }

    /// The subject count so far.
    pub closed spec fn subject_count(self) -> Option<u32> {
        self.subjects
    }

    /// A sink for `check`, with no findings and no subjects recorded.
    pub fn new(check: &'static str) -> (s: Self)
        ensures
            s.check_id() == check@,
            s.found() == Seq::<(Option<u64>, String)>::empty(),
            s.subject_count() is None,
    {
        FindingSink { check, entries: Vec::new(), subjects: None }
    }

    /// Records a finding at an event (`seq`) with an actionable detail sentence.
    pub fn push(&mut self, seq: Option<u64>, detail: String)
        ensures
            final(self).check_id() == old(self).check_id(),
            final(self).subject_count() == old(self).subject_count(),
            final(self).found() == old(self).found().push((seq, detail)),
            entry_seqs(final(self).found()) == entry_seqs(old(self).found()).push(seq),
            entry_views(final(self).found()) == entry_views(old(self).found()).push((seq, detail@)),
    {
        let ghost d = detail@;
        self.entries.push((seq, detail));
        assert(entry_seqs(self.entries@) =~= entry_seqs(old(self).entries@).push(seq));
        assert(entry_views(self.entries@) =~= entry_views(old(self).entries@).push((seq, d)));
    }

    /// Records that this check considered one more subject (saturating).
    pub fn examined(&mut self)
        ensures
            final(self).check_id() == old(self).check_id(),
            final(self).found() == old(self).found(),
            final(self).subject_count() == Some(saturating_add(
                match old(self).subject_count() { Some(n) => n, None => 0u32 }, 1)),
            final(self).subject_count() == after_counting(old(self).subject_count(), 1),
    {
        let current = match self.subjects {
            Some(n) => n,
            None => 0,
        };
        self.subjects = Some(current.saturating_add(1));
    }

    /// Records that this check considered `count` subjects at once (saturating).
    pub fn examined_many(&mut self, count: usize)
        ensures
            final(self).check_id() == old(self).check_id(),
            final(self).found() == old(self).found(),
            final(self).subject_count() == Some(saturating_add(
                match old(self).subject_count() { Some(n) => n, None => 0u32 },
                if count > u32::MAX { u32::MAX as int } else { count as int })),
    {
        let count: u32 = if count > u32::MAX as usize { u32::MAX } else { count as u32 };
        let current = match self.subjects {
            Some(n) => n,
            None => 0,
        };
        self.subjects = Some(current.saturating_add(count));
    }

    /// The findings, stamped with the check ID, and the subject count.
    pub fn finish(self) -> (r: CheckOutcome)
        ensures
            r.findings@.len() == self.found().len(),
            forall|i: int| 0 <= i < r.findings@.len() ==> {
                &&& #[trigger] r.findings@[i].check@ == self.check_id()
                &&& r.findings@[i].seq == self.found()[i].0
                &&& r.findings@[i].detail == self.found()[i].1
            },
            finding_seqs(r.findings@) == entry_seqs(self.found()),
            finding_views(r.findings@) == entry_views(self.found()),
            r.subjects == self.subject_count(),
    {
        let ghost entries = self.entries@;
        let check = self.check;
        let subjects = self.subjects;
        let mut rest = self.entries;
        let mut findings: Vec<Finding> = Vec::new();
        while rest.len() > 0
            invariant
                findings@.len() + rest@.len() == entries.len(),
                rest@ == entries.subrange(findings@.len() as int, entries.len() as int),
                forall|i: int| 0 <= i < findings@.len() ==> {
                    &&& #[trigger] findings@[i].check@ == check@
                    &&& findings@[i].seq == entries[i].0
                    &&& findings@[i].detail == entries[i].1
                },
            decreases rest@.len(),
        {
            let (seq, detail) = rest.remove(0);
            findings.push(Finding { check: owned(check), seq, detail });
        }
        assert(findings@.len() == entries.len());
        assert forall|i: int| 0 <= i < entries.len() implies finding_seqs(findings@)[i] == entry_seqs(entries)[i] by {
            assert(findings@[i].check@ == check@);
        }
        assert(finding_seqs(findings@) =~= entry_seqs(entries));
        assert forall|i: int| 0 <= i < entries.len() implies finding_views(findings@)[i] == entry_views(entries)[i] by {
            assert(findings@[i].check@ == check@);
        }
        assert(finding_views(findings@) =~= entry_views(entries));
        CheckOutcome { findings, subjects }
    }
}

/// `a + b`, or `u32::MAX` when that overflows.
pub open spec fn saturating_add(a: u32, b: int) -> u32 {
    if a + b > u32::MAX { u32::MAX } else { (a + b) as u32 }
}

/// A subject count, reading "not recorded" as none.
pub open spec fn count_or_zero(count: Option<u32>) -> u32 {
    match count {
        Some(n) => n,
        None => 0,
    }
}

/// `n`, or `u32::MAX` when it does not fit.
pub open spec fn capped(n: int) -> u32 {
    if n > u32::MAX { u32::MAX } else if n < 0 { 0 } else { n as u32 }
}

/// The subject count `count` becomes after `n` more subjects.
pub open spec fn after_counting(count: Option<u32>, n: int) -> Option<u32> {
    Some(capped(count_or_zero(count) + n))
}

/// What running one check produced.
pub struct CheckOutcome {
    /// Findings, each stamped with the check's ID.
    pub findings: Vec<Finding>,
    /// How many subjects the check examined, when it reports that. `None` means
    /// the check is not instrumented, which the engine reads as "examined
    /// something".
    pub subjects: Option<u32>,
}

/// The checks this build implements.
pub enum CheckRun {
    ResultTypePresent,
    RequestIdUniqueInFlight,
    ErrorCode(CodeRule),
    DiscoverImplemented,
    DiscoverProbeFirst,
    MetaKeyFormat,
    RetryUsesSupportedVersion,
    ExtensionIdentifierFormat,
    InitializeErrorNamesVersions,
    CacheHints,
    CacheTtl,
    CacheScope,
    InvalidCursor,
    LogLevelRequested,
    LogNotOnSubscription,
    LogInvalidLevel,
    CompletionsDeclared,
    LoggingDeclared,
    ToolsDeclared,
    ResourcesDeclared,
    PromptsDeclared,
    ToolsListImplemented,
    ResourcesListImplemented,
    PromptsListImplemented,
    EmbeddedResourceDeclared,
    TraceContextFormat,
    RequiredRequestFields,
    MissingFieldRejected,
    MissingFieldHttpStatus,
    MissingCapabilityHttpStatus,
    MissingCapabilityError,
    NoUndeclaredReliance,
    SubscriptionIdPresent,
    InputRequiredSupported,
    InputRequestMethods,
    InputRequiredHasContent,
    RetryCarriesResponses,
    RequestStateEchoed,
    NoUnsolicitedState,
    RetryIdDiffers,
    StateScopedToRetry,
    MissingInputReasked,
    OnlyRequestedNotifications,
    AcknowledgmentFirst,
    GracefulCloseResultShape,
    DeterministicOrder,
    HeaderIntegerRange,
    ReadContentsNonEmpty,
    VersionHeaderPresent,
    VersionHeaderMatchesBody,
    RequestMetadataHeaders,
    HeaderValueEncoding,
    SentinelMarkerCase,
    SentinelPatternEncoded,
    HeaderMirrored,
    HeaderNameValid,
    VersionMismatchRejected,
    InvalidParamRejected,
    HeaderMismatchStatus,
    HeaderBodyMatchValidated,
    UnsupportedVersionError,
    UnknownMethod404,
    ClientNoResponses,
    NoIndependentServerRequests,
    AccelBufferingHeader,
    NoMessagesAfterCancellation,
    CancelNotificationReferencesRequest,
    NoMessagesAfterCancelNotification,
    RequestIdType,
    RequestIdNotNull,
    RequestIdUnique,
    ResultIdMatches,
    NotificationNoId,
    ErrorShape,
    ErrorCodeInteger,
    JsonrpcVersion,
    ErrorIdMatches,
    ResultField,
    FirstInteractionInitialize,
    InitializeParams,
    InitializedNotification,
    ClientRequestsBeforeInitResponse,
    ServerRequestsBeforeInitialized,
    InitializeResultVersion,
    InitializeResultShape,
    InitializeProtocolVersion,
    NegotiatedCapabilitiesOnly,
    ToolsCapabilityDeclared,
    InputSchemaObject,
    NameLength,
    NameCharset,
    NameUnique,
    EmbeddedResourceCapability,
    StructuredContentText,
    OutputSchemaStructuredResult,
    PromptsCapabilityDeclared,
    ImageContentEncoding,
    AudioContentEncoding,
    EmbeddedResourceShape,
    ArgumentsValidated,
    ResourcesCapabilityDeclared,
    UriSchemeRfc3986,
    BlobBase64,
    LoggingCapabilityDeclared,
    CompletionCapabilityDeclared,
    CursorOpacity,
    StdioServerOutputValid,
    StdioClientInputValid,
    SessionIdVisibleAscii,
    SessionIdEchoed,
    ProtocolVersionHeader,
    ProtocolVersionNegotiated,
    ClientPostAcceptHeader,
    ClientGetAcceptHeader,
    ClientMessagesUsePost,
}

/// Whether a check counts the subjects it examines (the others leave the count
/// unrecorded, which validation reads as "examined something").
pub open spec fn counting(run: CheckRun) -> bool {
    ||| run == CheckRun::RetryUsesSupportedVersion
    ||| run == CheckRun::ExtensionIdentifierFormat
    ||| run == CheckRun::InitializeErrorNamesVersions
    ||| run == CheckRun::InvalidCursor
    ||| run == CheckRun::LogLevelRequested
    ||| run == CheckRun::LogNotOnSubscription
    ||| run == CheckRun::LogInvalidLevel
    ||| run == CheckRun::CompletionsDeclared
    ||| run == CheckRun::LoggingDeclared
    ||| run == CheckRun::ToolsDeclared
    ||| run == CheckRun::ResourcesDeclared
    ||| run == CheckRun::PromptsDeclared
    ||| run == CheckRun::ToolsListImplemented
    ||| run == CheckRun::ResourcesListImplemented
    ||| run == CheckRun::PromptsListImplemented
    ||| run == CheckRun::EmbeddedResourceDeclared
    ||| run == CheckRun::TraceContextFormat
    ||| run == CheckRun::RequiredRequestFields
    ||| run == CheckRun::MissingFieldRejected
    ||| run == CheckRun::MissingFieldHttpStatus
    ||| run == CheckRun::MissingCapabilityHttpStatus
    ||| run == CheckRun::MissingCapabilityError
    ||| run == CheckRun::NoUndeclaredReliance
    ||| run == CheckRun::SubscriptionIdPresent
    ||| run == CheckRun::OnlyRequestedNotifications
    ||| run == CheckRun::AcknowledgmentFirst
    ||| run == CheckRun::GracefulCloseResultShape
    ||| run == CheckRun::DeterministicOrder
    ||| run == CheckRun::HeaderIntegerRange
    ||| run == CheckRun::ReadContentsNonEmpty
    ||| run == CheckRun::CancelNotificationReferencesRequest
    ||| run == CheckRun::NoMessagesAfterCancelNotification
    ||| run == CheckRun::ClientMessagesUsePost
    ||| run == CheckRun::ClientGetAcceptHeader
    ||| run == CheckRun::ClientPostAcceptHeader
    ||| run == CheckRun::CursorOpacity
    ||| run == CheckRun::CompletionCapabilityDeclared
    ||| run == CheckRun::LoggingCapabilityDeclared
    ||| run == CheckRun::ResourcesCapabilityDeclared
    ||| run == CheckRun::ArgumentsValidated
    ||| run == CheckRun::EmbeddedResourceShape
    ||| run == CheckRun::AudioContentEncoding
    ||| run == CheckRun::ImageContentEncoding
    ||| run == CheckRun::PromptsCapabilityDeclared
    ||| run == CheckRun::EmbeddedResourceCapability
    ||| run == CheckRun::ToolsCapabilityDeclared
    ||| run == CheckRun::NegotiatedCapabilitiesOnly
    ||| run == CheckRun::ErrorIdMatches
    ||| run == CheckRun::ResultIdMatches
}

/// The subject count a check reports over a trace: unrecorded for a check
/// that does not count.
pub open spec fn check_subjects(run: CheckRun, events: Seq<TraceEvent>, pairs: Seq<Option<usize>>) -> Option<u32> {
    match run {
        CheckRun::PromptsCapabilityDeclared => after_counting(None, if crate::checks::support::server_declaration(events, seq!["prompts"@]) == crate::checks::support::Declaration::Unknowable { 0 } else { crate::checks::sites::xtally(exchange_ixs(events, pairs, None, events.len() as nat), |x: (int, int)| crate::checks::prompts::served_prompts_site(events, x).len()) as int }),
        CheckRun::ToolsCapabilityDeclared => after_counting(None, if crate::checks::support::server_declaration(events, seq!["tools"@]) == crate::checks::support::Declaration::Unknowable { 0 } else { crate::checks::sites::xtally(exchange_ixs(events, pairs, None, events.len() as nat), |x: (int, int)| crate::checks::tools::served_tools_site(events, x).len()) as int }),
        CheckRun::EmbeddedResourceCapability => after_counting(None, if crate::checks::support::server_declaration(events, seq!["resources"@]) == crate::checks::support::Declaration::Unknowable { 0 } else { crate::checks::sites::xtally(crate::checks::tools::call_ixs(events, pairs), |x: (int, int)| crate::checks::tools::embedded_site(events, x).len()) as int }),
        CheckRun::ResourcesCapabilityDeclared => after_counting(None, if crate::checks::support::server_declaration(events, seq!["resources"@]) == crate::checks::support::Declaration::Unknowable { 0 } else { crate::checks::sites::xtally(exchange_ixs(events, pairs, None, events.len() as nat), |x: (int, int)| crate::checks::resources::served_resources_site(events, x).len()) as int }),
        CheckRun::LoggingCapabilityDeclared => after_counting(None, if crate::checks::support::server_declaration(events, seq!["logging"@]) == crate::checks::support::Declaration::Unknowable { 0 } else { crate::checks::sites::tally(events, |e: TraceEvent| crate::checks::utilities::log_site(e).len()) as int }),
        CheckRun::CompletionCapabilityDeclared => after_counting(None, if crate::checks::support::server_declaration(events, seq!["completions"@]) == crate::checks::support::Declaration::Unknowable { 0 } else { crate::checks::sites::xtally(exchange_ixs(events, pairs, Some("completion/complete"@), events.len() as nat), |x: (int, int)| crate::checks::utilities::completion_site(events, x).len()) as int }),
        CheckRun::NegotiatedCapabilitiesOnly => after_counting(None, crate::checks::sites::tally(events, |e: TraceEvent| crate::checks::negotiation::gated_subject(events, e)) as int),
        CheckRun::LogLevelRequested => after_counting(None, crate::checks::sites::tally(events, |e: TraceEvent| crate::checks::logging::log_subject(e)) as int),
        CheckRun::LogNotOnSubscription => after_counting(None, crate::checks::sites::tally(events, |e: TraceEvent| crate::checks::logging::log_subject(e)) as int),
        CheckRun::LogInvalidLevel => after_counting(None, crate::checks::sites::xtally(exchange_ixs(events, pairs, None, events.len() as nat), |x: (int, int)| crate::checks::logging::invalid_level_subject(events, x)) as int),
        CheckRun::ClientPostAcceptHeader => after_counting(None, crate::checks::sites::tally(events, |e: TraceEvent| crate::checks::bindings::verb_subject(e, "post"@)) as int),
        CheckRun::ClientGetAcceptHeader => after_counting(None, crate::checks::sites::tally(events, |e: TraceEvent| crate::checks::bindings::verb_subject(e, "get"@)) as int),
        CheckRun::ClientMessagesUsePost => after_counting(None, crate::checks::bindings::verb_subjects(events, events.len() as nat) as int),
        CheckRun::RequiredRequestFields => after_counting(None, crate::checks::sites::tally(events, |e: TraceEvent| crate::checks::meta::request_subject(e)) as int),
        CheckRun::MissingFieldRejected => after_counting(None, crate::checks::sites::tally(events, |e: TraceEvent| crate::checks::meta::unrejected_subject(events, e)) as int),
        CheckRun::MissingFieldHttpStatus => after_counting(None, crate::checks::sites::tally(events, |e: TraceEvent| crate::checks::meta::status_subject(events, -32602, e)) as int),
        CheckRun::MissingCapabilityHttpStatus => after_counting(None, crate::checks::sites::tally(events, |e: TraceEvent| crate::checks::meta::status_subject(events, -32021, e)) as int),
        CheckRun::MissingCapabilityError => after_counting(None, crate::checks::sites::tally(events, |e: TraceEvent| crate::checks::meta::capability_error_subject(e)) as int),
        CheckRun::NoUndeclaredReliance => after_counting(None, crate::checks::sites::tally(events, |e: TraceEvent| crate::checks::meta::reliance_subject(events, e)) as int),
        CheckRun::SubscriptionIdPresent => after_counting(None, crate::checks::sites::tally(events, |e: TraceEvent| crate::checks::meta::untagged_subject(events, e)) as int),
        CheckRun::CompletionsDeclared => after_counting(None, crate::checks::capabilities::answered_count(events, pairs, "completion/complete"@) as int),
        CheckRun::ToolsDeclared => after_counting(None, (crate::checks::capabilities::answered_count(events, pairs, "tools/list"@) + crate::checks::capabilities::answered_count(events, pairs, "tools/call"@)) as int),
        CheckRun::ResourcesDeclared => after_counting(None, (crate::checks::capabilities::answered_count(events, pairs, "resources/list"@) + crate::checks::capabilities::answered_count(events, pairs, "resources/templates/list"@) + crate::checks::capabilities::answered_count(events, pairs, "resources/read"@)) as int),
        CheckRun::PromptsDeclared => after_counting(None, (crate::checks::capabilities::answered_count(events, pairs, "prompts/list"@) + crate::checks::capabilities::answered_count(events, pairs, "prompts/get"@)) as int),
        CheckRun::ToolsListImplemented => after_counting(None, crate::checks::capabilities::listed_count(events, pairs, "tools"@, "tools/list"@) as int),
        CheckRun::ResourcesListImplemented => after_counting(None, crate::checks::capabilities::listed_count(events, pairs, "resources"@, "resources/list"@) as int),
        CheckRun::PromptsListImplemented => after_counting(None, crate::checks::capabilities::listed_count(events, pairs, "prompts"@, "prompts/list"@) as int),
        CheckRun::EmbeddedResourceDeclared => after_counting(None, crate::checks::sites::xtally(exchange_ixs(events, pairs, Some("tools/call"@), events.len() as nat), |x: (int, int)| crate::checks::capabilities::embedding_subject(events, x)) as int),
        CheckRun::LoggingDeclared => after_counting(None, crate::checks::sites::tally(events, |e: TraceEvent| crate::checks::logging::log_subject(e)) as int),
        CheckRun::ImageContentEncoding => after_counting(None, crate::checks::sites::xtally(crate::checks::prompts::get_ixs(events, pairs), |x: (int, int)| crate::checks::prompts::typed_count(crate::checks::prompts::prompt_contents(events, x), "image"@)) as int),
        CheckRun::AudioContentEncoding => after_counting(None, crate::checks::sites::xtally(crate::checks::prompts::get_ixs(events, pairs), |x: (int, int)| crate::checks::prompts::typed_count(crate::checks::prompts::prompt_contents(events, x), "audio"@)) as int),
        CheckRun::EmbeddedResourceShape => after_counting(None, crate::checks::sites::xtally(crate::checks::prompts::get_ixs(events, pairs), |x: (int, int)| crate::checks::prompts::typed_count(crate::checks::prompts::prompt_contents(events, x), "resource"@)) as int),
        CheckRun::ArgumentsValidated => after_counting(None, crate::checks::sites::xtally(crate::checks::prompts::get_ixs(events, pairs), |x: (int, int)| crate::checks::prompts::validated_subject(events, crate::checks::prompts::declared_arguments(events, exchange_ixs(events, pairs, Some("prompts/list"@), events.len() as nat)), x)) as int),
        CheckRun::InvalidCursor => after_counting(None, crate::checks::pagination::cursor_subjects(events, crate::checks::pagination::by_request_seq(events, exchange_ixs(events, pairs, None, events.len() as nat))) as int),
        CheckRun::CursorOpacity => after_counting(None, crate::checks::sites::tally(events, |e: TraceEvent| crate::checks::utilities::cursor_subject(e)) as int),
        CheckRun::DeterministicOrder => after_counting(None, crate::checks::features::order_subjects(events, exchange_ixs(events, pairs, Some("tools/list"@), events.len() as nat)) as int),
        CheckRun::ReadContentsNonEmpty => after_counting(None, crate::checks::sites::xtally(exchange_ixs(events, pairs, Some("resources/read"@), events.len() as nat), |x: (int, int)| crate::checks::features::contents_subject(events, x)) as int),
        CheckRun::HeaderIntegerRange => after_counting(None, crate::checks::sites::tally(events, |e: TraceEvent| crate::checks::features::range_subject(events, e)) as int),
        CheckRun::RetryUsesSupportedVersion => after_counting(None, crate::checks::versioning::retry_subjects(events) as int),
        CheckRun::InitializeErrorNamesVersions => after_counting(None, crate::checks::versioning::refusal_subjects(events, exchange_ixs(events, pairs, Some("initialize"@), events.len() as nat)) as int),
        CheckRun::ExtensionIdentifierFormat => after_counting(None, crate::checks::sites::tally(events, |e: TraceEvent| crate::checks::versioning::extension_members(e).len()) as int),
        CheckRun::TraceContextFormat => after_counting(None, crate::checks::sites::tally(events, |e: TraceEvent| crate::checks::trace_context::trace_context_subject(e)) as int),
        CheckRun::OnlyRequestedNotifications => after_counting(None, crate::checks::sites::tally(events, |e: TraceEvent| crate::checks::subscriptions::tagged_subject(events, e)) as int),
        CheckRun::AcknowledgmentFirst => after_counting(None, crate::checks::subscriptions::ack_walk(events, events.len() as nat).decided.len() as int),
        CheckRun::GracefulCloseResultShape => after_counting(None, crate::checks::sites::xtally(exchange_ixs(events, pairs, Some("subscriptions/listen"@), events.len() as nat), |x: (int, int)| crate::checks::subscriptions::close_subject(events, x)) as int),
        CheckRun::CancelNotificationReferencesRequest => after_counting(None, crate::checks::sites::tally(events, |e: TraceEvent| crate::checks::stdio::cancel_subject(e)) as int),
        CheckRun::NoMessagesAfterCancelNotification => after_counting(None, crate::checks::stdio::note_subjects(events, events.len() as nat) as int),
        CheckRun::ResultIdMatches => after_counting(None, crate::checks::sites::tally(events, |e: TraceEvent| crate::checks::base::response_subject(e, true)) as int),
        CheckRun::ErrorIdMatches => after_counting(None, crate::checks::sites::tally(events, |e: TraceEvent| crate::checks::base::response_subject(e, false)) as int),
        _ => None,
    }
}

/// Whether a check judges what a session declared: such a check abstains,
/// examining nothing, where the trace carries no `initialize` result.
pub open spec fn reads_declarations(run: CheckRun) -> bool {
    ||| run == CheckRun::ToolsCapabilityDeclared
    ||| run == CheckRun::EmbeddedResourceCapability
    ||| run == CheckRun::ResourcesCapabilityDeclared
    ||| run == CheckRun::PromptsCapabilityDeclared
    ||| run == CheckRun::LoggingCapabilityDeclared
    ||| run == CheckRun::CompletionCapabilityDeclared
    ||| run == CheckRun::NegotiatedCapabilitiesOnly
}

/// A registered check: its stable ID and what it runs.
pub struct Check {
    /// Stable check identifier referenced by registry entries.
    pub id: &'static str,
    run: CheckRun,
}

/// The finding seqs a check yields over `events`.
pub open spec fn check_sites(run: CheckRun, events: Seq<TraceEvent>, pairs: Seq<Option<usize>>) -> Seq<Option<u64>> {
    match run {
        CheckRun::ResultTypePresent => sites(events, |e: TraceEvent| result_type_site(e)),
        CheckRun::RequestIdUniqueInFlight => in_flight_after(events).1,
        CheckRun::ErrorCode(rule) => sites(events, rule_site(rule)),
        CheckRun::DiscoverImplemented => sites(events, |e: TraceEvent| implemented_site(events, e)),
        CheckRun::DiscoverProbeFirst => probe_first_sites(events),
        CheckRun::MetaKeyFormat => sites(events, |e: TraceEvent| meta_key_site(e)),
        CheckRun::RetryUsesSupportedVersion => retry_sites(events),
        CheckRun::ExtensionIdentifierFormat => sites(events, |e: TraceEvent| extension_site(e)),
        CheckRun::InitializeErrorNamesVersions =>
            refusal_sites(events, exchange_ixs(events, pairs, Some("initialize"@), events.len() as nat)),
        CheckRun::CacheHints => xsites(exchange_ixs(events, pairs, None, events.len() as nat),
            |x: (int, int)| hint_site(events, x)),
        CheckRun::CacheTtl => sites(events, |e: TraceEvent| ttl_site(e)),
        CheckRun::CacheScope => scope_walk(events, exchange_ixs(events, pairs, None, events.len() as nat)).found,
        CheckRun::InvalidCursor => cursor_walk(events,
            by_request_seq(events, exchange_ixs(events, pairs, None, events.len() as nat))).1,
        CheckRun::LogLevelRequested => sites(events, |e: TraceEvent| unrequested_site(events, e)),
        CheckRun::LogNotOnSubscription => sites(events, |e: TraceEvent| subscription_log_site(e)),
        CheckRun::LogInvalidLevel => xsites(exchange_ixs(events, pairs, None, events.len() as nat),
            |x: (int, int)| invalid_level_site(events, x)),
        CheckRun::CompletionsDeclared => undeclared_sites(events, pairs, "completions"@, "completion/complete"@),
        CheckRun::LoggingDeclared => sites(events,
            |e: TraceEvent| undeclared_log_site(declares_spec(events, pairs, "logging"@), e)),
        CheckRun::ToolsDeclared => undeclared_sites(events, pairs, "tools"@, "tools/list"@)
            + undeclared_sites(events, pairs, "tools"@, "tools/call"@),
        CheckRun::ResourcesDeclared => undeclared_sites(events, pairs, "resources"@, "resources/list"@)
            + undeclared_sites(events, pairs, "resources"@, "resources/templates/list"@)
            + undeclared_sites(events, pairs, "resources"@, "resources/read"@),
        CheckRun::PromptsDeclared => undeclared_sites(events, pairs, "prompts"@, "prompts/list"@)
            + undeclared_sites(events, pairs, "prompts"@, "prompts/get"@),
        CheckRun::ToolsListImplemented => unserved_list_sites(events, pairs, "tools"@, "tools/list"@),
        CheckRun::ResourcesListImplemented => unserved_list_sites(events, pairs, "resources"@, "resources/list"@),
        CheckRun::PromptsListImplemented => unserved_list_sites(events, pairs, "prompts"@, "prompts/list"@),
        CheckRun::EmbeddedResourceDeclared => xsites(
            exchange_ixs(events, pairs, Some("tools/call"@), events.len() as nat),
            |x: (int, int)| embedded_site(events, declares_spec(events, pairs, "resources"@), x)),
        CheckRun::TraceContextFormat => sites(events, |e: TraceEvent| trace_context_site(e)),
        CheckRun::RequiredRequestFields => sites(events, |e: TraceEvent| required_fields_site(e)),
        CheckRun::MissingFieldRejected => sites(events, |e: TraceEvent| unrejected_site(events, e)),
        CheckRun::MissingFieldHttpStatus => sites(events, |e: TraceEvent| status_error_site(events, -32602, e)),
        CheckRun::MissingCapabilityHttpStatus => sites(events, |e: TraceEvent| status_error_site(events, -32021, e)),
        CheckRun::MissingCapabilityError => sites(events, |e: TraceEvent| capability_error_site(e)),
        CheckRun::NoUndeclaredReliance => sites(events, |e: TraceEvent| reliance_site(events, e)),
        CheckRun::SubscriptionIdPresent => sites(events, |e: TraceEvent| untagged_site(events, e)),
        CheckRun::InputRequiredSupported => xsites(exchange_ixs(events, pairs, None, events.len() as nat),
            |x: (int, int)| unsupported_site(events, x)),
        CheckRun::InputRequestMethods => xsites(exchange_ixs(events, pairs, None, events.len() as nat),
            |x: (int, int)| request_methods_site(events, x)),
        CheckRun::InputRequiredHasContent => xsites(exchange_ixs(events, pairs, None, events.len() as nat),
            |x: (int, int)| empty_round_site(events, x)),
        CheckRun::RetryCarriesResponses => isites(events.len() as nat, |i: int| carries_site(events, pairs, i)),
        CheckRun::RequestStateEchoed => isites(events.len() as nat, |i: int| echoed_site(events, pairs, i)),
        CheckRun::NoUnsolicitedState => isites(events.len() as nat, |i: int| unsolicited_site(events, pairs, i)),
        CheckRun::RetryIdDiffers => isites(events.len() as nat, |i: int| reused_id_site(events, pairs, i)),
        CheckRun::StateScopedToRetry => sites(events, |e: TraceEvent| scoped_site(events, pairs, e)),
        CheckRun::MissingInputReasked => xsites(exchange_ixs(events, pairs, None, events.len() as nat),
            |x: (int, int)| reasked_site(events, pairs, x)),
        CheckRun::OnlyRequestedNotifications => sites(events, |e: TraceEvent| sub_unrequested_site(events, e)),
        CheckRun::AcknowledgmentFirst => ack_walk(events, events.len() as nat).found,
        CheckRun::GracefulCloseResultShape => xsites(
            exchange_ixs(events, pairs, Some("subscriptions/listen"@), events.len() as nat),
            |x: (int, int)| close_site(events, x)),
        CheckRun::DeterministicOrder => order_walk(events,
            exchange_ixs(events, pairs, Some("tools/list"@), events.len() as nat)).1,
        CheckRun::HeaderIntegerRange => sites(events, |e: TraceEvent| range_site(events, e)),
        CheckRun::ReadContentsNonEmpty => xsites(
            exchange_ixs(events, pairs, Some("resources/read"@), events.len() as nat),
            |x: (int, int)| empty_contents_site(events, x)),
        CheckRun::VersionHeaderPresent => xsites(trace_posts(events), |x: (int, int)| version_missing_site(events, x)),
        CheckRun::VersionHeaderMatchesBody => xsites(trace_posts(events), |x: (int, int)| version_body_site(events, x)),
        CheckRun::RequestMetadataHeaders => xsites(trace_posts(events), |x: (int, int)| metadata_site(events, x)),
        CheckRun::HeaderValueEncoding => xsites(trace_posts(events), |x: (int, int)| encoding_site(events, x)),
        CheckRun::SentinelMarkerCase => xsites(trace_posts(events), |x: (int, int)| case_site(events, x)),
        CheckRun::SentinelPatternEncoded => xsites(trace_posts(events), |x: (int, int)| mirror_rule_site(MirrorRule::Pattern, events, x)),
        CheckRun::HeaderMirrored => mirrored_sites(events),
        CheckRun::HeaderNameValid => tool_name_sites(tool_definitions(events)),
        CheckRun::VersionMismatchRejected => xsites(exchange_ixs(events, pairs, None, events.len() as nat), |x: (int, int)| unrejected_fault_site(HeaderFault::VersionMismatch, events, x)),
        CheckRun::InvalidParamRejected => xsites(exchange_ixs(events, pairs, None, events.len() as nat), |x: (int, int)| unrejected_fault_site(HeaderFault::InvalidParam, events, x)),
        CheckRun::HeaderMismatchStatus => sites(events, |e: TraceEvent| status_code_site(events, e, -32020, 400)),
        CheckRun::HeaderBodyMatchValidated => xsites(exchange_ixs(events, pairs, None, events.len() as nat), |x: (int, int)| unvalidated_site(events, x)),
        CheckRun::UnsupportedVersionError => unsupported_sites(events, pairs),
        CheckRun::UnknownMethod404 => unknown_method_sites(events),
        CheckRun::ClientNoResponses => sites(events, |e: TraceEvent| client_response_site(e)),
        CheckRun::NoIndependentServerRequests => sites(events, |e: TraceEvent| server_request_site(e)),
        CheckRun::AccelBufferingHeader => sites(events, |e: TraceEvent| buffering_site(e)),
        CheckRun::NoMessagesAfterCancellation => cancel_walk(events, events.len() as nat).found,
        CheckRun::CancelNotificationReferencesRequest => sites(events, |e: TraceEvent| unnamed_cancel_site(e)),
        CheckRun::NoMessagesAfterCancelNotification => note_walk(events, events.len() as nat).found,
        CheckRun::ClientMessagesUsePost => crate::checks::bindings::verb_walk(events, events.len() as nat).1,
        CheckRun::ClientGetAcceptHeader => sites(events, |e: TraceEvent| crate::checks::bindings::get_accept_site(e)),
        CheckRun::ClientPostAcceptHeader => sites(events, |e: TraceEvent| crate::checks::bindings::post_accept_site(e)),
        CheckRun::ProtocolVersionNegotiated => match crate::checks::bindings::negotiated(events) { Some(v) => sites(events, |e: TraceEvent| crate::checks::bindings::negotiated_site(e, v)), None => Seq::empty() },
        CheckRun::ProtocolVersionHeader => match crate::checks::bindings::negotiated(events) { Some((s, _)) => sites(events, |e: TraceEvent| crate::checks::bindings::version_header_site(e, s)), None => Seq::empty() },
        CheckRun::SessionIdEchoed => match crate::checks::bindings::assigned(events) { Some(a) => sites(events, |e: TraceEvent| crate::checks::bindings::echo_site(e, a)), None => Seq::empty() },
        CheckRun::SessionIdVisibleAscii => sites(events, |e: TraceEvent| crate::checks::bindings::session_charset_site(e)),
        CheckRun::StdioClientInputValid => sites(events, |e: TraceEvent| crate::checks::bindings::invalid_stdio_site(e, crate::trace::Direction::ClientToServer)),
        CheckRun::StdioServerOutputValid => sites(events, |e: TraceEvent| crate::checks::bindings::invalid_stdio_site(e, crate::trace::Direction::ServerToClient)),
        CheckRun::CursorOpacity => crate::checks::utilities::cursor_trail(events, pairs, events.len() as nat).1,
        CheckRun::CompletionCapabilityDeclared => if crate::checks::support::server_declaration(events, seq!["completions"@]) == crate::checks::support::Declaration::Withheld { xsites(exchange_ixs(events, pairs, Some("completion/complete"@), events.len() as nat), |x: (int, int)| crate::checks::utilities::completion_site(events, x)) } else { Seq::empty() },
        CheckRun::LoggingCapabilityDeclared => if crate::checks::support::server_declaration(events, seq!["logging"@]) == crate::checks::support::Declaration::Withheld { sites(events, |e: TraceEvent| crate::checks::utilities::log_site(e)) } else { Seq::empty() },
        CheckRun::BlobBase64 => xsites(crate::checks::resources::method_ixs(events, pairs, "resources/read"@), |x: (int, int)| crate::checks::resources::blob_sites(crate::checks::tools::items_of(crate::checks::tools::x_result(events, x), "contents"@), events[x.1].seq)),
        CheckRun::UriSchemeRfc3986 => xsites(crate::checks::resources::method_ixs(events, pairs, "resources/list"@), |x: (int, int)| crate::checks::resources::uri_sites(crate::checks::tools::items_of(crate::checks::tools::x_result(events, x), "resources"@), events[x.1].seq)) + xsites(crate::checks::resources::method_ixs(events, pairs, "resources/read"@), |x: (int, int)| crate::checks::resources::uri_sites(crate::checks::tools::items_of(crate::checks::tools::x_result(events, x), "contents"@), events[x.1].seq)),
        CheckRun::ResourcesCapabilityDeclared => if crate::checks::support::server_declaration(events, seq!["resources"@]) == crate::checks::support::Declaration::Withheld { xsites(exchange_ixs(events, pairs, None, events.len() as nat), |x: (int, int)| crate::checks::resources::served_resources_site(events, x)) } else { Seq::empty() },
        CheckRun::ArgumentsValidated => xsites(crate::checks::prompts::get_ixs(events, pairs), |x: (int, int)| crate::checks::prompts::unvalidated_site(events, crate::checks::prompts::declared_arguments(events, exchange_ixs(events, pairs, Some("prompts/list"@), events.len() as nat)), x)),
        CheckRun::EmbeddedResourceShape => xsites(crate::checks::prompts::get_ixs(events, pairs), |x: (int, int)| crate::checks::prompts::embedded_sites(crate::checks::prompts::prompt_contents(events, x), events[x.1].seq)),
        CheckRun::AudioContentEncoding => xsites(crate::checks::prompts::get_ixs(events, pairs), |x: (int, int)| crate::checks::prompts::binary_sites(crate::checks::prompts::prompt_contents(events, x), "audio"@, events[x.1].seq)),
        CheckRun::ImageContentEncoding => xsites(crate::checks::prompts::get_ixs(events, pairs), |x: (int, int)| crate::checks::prompts::binary_sites(crate::checks::prompts::prompt_contents(events, x), "image"@, events[x.1].seq)),
        CheckRun::PromptsCapabilityDeclared => if crate::checks::support::server_declaration(events, seq!["prompts"@]) == crate::checks::support::Declaration::Withheld { xsites(exchange_ixs(events, pairs, None, events.len() as nat), |x: (int, int)| crate::checks::prompts::served_prompts_site(events, x)) } else { Seq::empty() },
        CheckRun::OutputSchemaStructuredResult => xsites(crate::checks::tools::call_ixs(events, pairs), |x: (int, int)| crate::checks::tools::unstructured_site(events, crate::checks::tools::schema_tool_names(events, crate::checks::tools::list_ixs(events, pairs)), x)),
        CheckRun::StructuredContentText => xsites(crate::checks::tools::call_ixs(events, pairs), |x: (int, int)| crate::checks::tools::fallback_site(events, x)),
        CheckRun::EmbeddedResourceCapability => if crate::checks::support::server_declaration(events, seq!["resources"@]) == crate::checks::support::Declaration::Withheld { xsites(crate::checks::tools::call_ixs(events, pairs), |x: (int, int)| crate::checks::tools::embedded_site(events, x)) } else { Seq::empty() },
        CheckRun::NameUnique => xsites(crate::checks::tools::list_ixs(events, pairs), |x: (int, int)| crate::checks::tools::duplicate_sites(crate::checks::tools::listed(events, x), events[x.1].seq)),
        CheckRun::NameCharset => xsites(crate::checks::tools::list_ixs(events, pairs), |x: (int, int)| crate::checks::tools::per_item(crate::checks::tools::listed(events, x), events[x.1].seq, |t: crate::json::Json| crate::checks::tools::charset_bad(t))),
        CheckRun::NameLength => xsites(crate::checks::tools::list_ixs(events, pairs), |x: (int, int)| crate::checks::tools::per_item(crate::checks::tools::listed(events, x), events[x.1].seq, |t: crate::json::Json| crate::checks::tools::length_bad(t))),
        CheckRun::InputSchemaObject => xsites(crate::checks::tools::list_ixs(events, pairs), |x: (int, int)| crate::checks::tools::per_item(crate::checks::tools::listed(events, x), events[x.1].seq, |t: crate::json::Json| crate::checks::tools::schema_bad(t))),
        CheckRun::ToolsCapabilityDeclared => if crate::checks::support::server_declaration(events, seq!["tools"@]) == crate::checks::support::Declaration::Withheld { xsites(exchange_ixs(events, pairs, None, events.len() as nat), |x: (int, int)| crate::checks::tools::served_tools_site(events, x)) } else { Seq::empty() },
        CheckRun::NegotiatedCapabilitiesOnly => sites(events, |e: TraceEvent| crate::checks::negotiation::ungated_site(events, e)),
        CheckRun::InitializeProtocolVersion => crate::checks::lifecycle::protocol_version_sites(crate::context::life_after(events).init),
        CheckRun::InitializeResultShape => crate::checks::lifecycle::result_shape_sites(crate::context::life_after(events).init),
        CheckRun::InitializeResultVersion => crate::checks::lifecycle::result_version_sites(crate::context::life_after(events).init),
        CheckRun::ServerRequestsBeforeInitialized => isites(events.len() as nat, |i: int| crate::checks::lifecycle::early_server_site(events, i)),
        CheckRun::ClientRequestsBeforeInitResponse => isites(events.len() as nat, |i: int| crate::checks::lifecycle::early_client_site(events, i)),
        CheckRun::InitializedNotification => crate::checks::lifecycle::initialized_sites(crate::context::life_after(events).init),
        CheckRun::InitializeParams => crate::checks::lifecycle::params_sites(crate::context::life_after(events).init),
        CheckRun::FirstInteractionInitialize => crate::checks::lifecycle::first_interaction_sites(events),
        CheckRun::ResultField => sites(events, |e: TraceEvent| missing_result_site(e)),
        CheckRun::ErrorIdMatches => correlation_walk(events, events.len() as nat, false).found,
        CheckRun::JsonrpcVersion => sites(events, |e: TraceEvent| version_site(e)),
        CheckRun::ErrorCodeInteger => sites(events, |e: TraceEvent| code_type_site(e)),
        CheckRun::ErrorShape => sites(events, |e: TraceEvent| error_shape_site(e)),
        CheckRun::NotificationNoId => sites(events, |e: TraceEvent| notification_id_site(e)),
        CheckRun::ResultIdMatches => correlation_walk(events, events.len() as nat, true).found,
        CheckRun::RequestIdUnique => first_use_walk(events, events.len() as nat).found,
        CheckRun::RequestIdNotNull => sites(events, |e: TraceEvent| null_id_site(e)),
        CheckRun::RequestIdType => sites(events, |e: TraceEvent| bad_id_site(e)),
    }
}

impl Check {
    /// What this check runs.
    pub closed spec fn runs(self) -> CheckRun {
        self.run
    }

    /// The check's ID.
    pub closed spec fn id_text(self) -> Seq<char> {
        self.id@
    }

    /// Runs the check, returning its findings, each stamped with the check ID
    /// and reported at the seqs the check's rule names, in event order.
    pub fn run(&self, context: &TraceContext<'_>) -> (r: CheckOutcome)
        ensures
            forall|i: int| 0 <= i < r.findings@.len() ==> #[trigger] r.findings@[i].check@ == self.id_text(),
            finding_seqs(r.findings@) == check_sites(self.runs(), context.trace(), context.pairs()),
            reads_declarations(self.runs()) && crate::context::life_after(context.trace()).init.result is None
                ==> r.subjects == Some(0u32),
            r.subjects == check_subjects(self.runs(), context.trace(), context.pairs()),
            check_entries(self.runs(), context.trace(), context.pairs()) matches Some(es) ==> finding_views(r.findings@) == es,
    {
        let mut sink = FindingSink::new(self.id);
        match &self.run {
            CheckRun::ResultTypePresent => crate::checks::envelope::result_type_present(context, &mut sink),
            CheckRun::RequestIdUniqueInFlight => crate::checks::envelope::request_id_unique_in_flight(context, &mut sink),
            CheckRun::ErrorCode(rule) => crate::checks::envelope::error_code_rule(context, &mut sink, *rule),
            CheckRun::DiscoverImplemented => crate::checks::discovery::implemented(context, &mut sink),
            CheckRun::DiscoverProbeFirst => crate::checks::discovery::dual_era_probe_first(context, &mut sink),
            CheckRun::MetaKeyFormat => crate::checks::meta_key::meta_key_format(context, &mut sink),
            CheckRun::RetryUsesSupportedVersion => crate::checks::versioning::retry_uses_supported_version(context, &mut sink),
            CheckRun::ExtensionIdentifierFormat => crate::checks::versioning::extension_identifier_format(context, &mut sink),
            CheckRun::InitializeErrorNamesVersions => crate::checks::versioning::initialize_error_names_versions(context, &mut sink),
            CheckRun::CacheHints => crate::checks::caching::hints_on_cacheable_results(context, &mut sink),
            CheckRun::CacheTtl => crate::checks::caching::ttl_non_negative(context, &mut sink),
            CheckRun::CacheScope => crate::checks::caching::page_scope_consistent(context, &mut sink),
            CheckRun::InvalidCursor => crate::checks::pagination::invalid_cursor_rejected(context, &mut sink),
            CheckRun::LogLevelRequested => crate::checks::logging::level_requested(context, &mut sink),
            CheckRun::LogNotOnSubscription => crate::checks::logging::not_on_subscription(context, &mut sink),
            CheckRun::LogInvalidLevel => crate::checks::logging::invalid_level_rejected(context, &mut sink),
            CheckRun::CompletionsDeclared => crate::checks::capabilities::completions_declared(context, &mut sink),
            CheckRun::LoggingDeclared => crate::checks::capabilities::logging_declared(context, &mut sink),
            CheckRun::ToolsDeclared => crate::checks::capabilities::tools_declared(context, &mut sink),
            CheckRun::ResourcesDeclared => crate::checks::capabilities::resources_declared(context, &mut sink),
            CheckRun::PromptsDeclared => crate::checks::capabilities::prompts_declared(context, &mut sink),
            CheckRun::ToolsListImplemented => crate::checks::capabilities::tools_list_implemented(context, &mut sink),
            CheckRun::ResourcesListImplemented => crate::checks::capabilities::resources_list_implemented(context, &mut sink),
            CheckRun::PromptsListImplemented => crate::checks::capabilities::prompts_list_implemented(context, &mut sink),
            CheckRun::EmbeddedResourceDeclared => crate::checks::capabilities::embedded_resource_declared(context, &mut sink),
            CheckRun::TraceContextFormat => crate::checks::trace_context::trace_context_format(context, &mut sink),
            CheckRun::RequiredRequestFields => crate::checks::meta::required_request_fields(context, &mut sink),
            CheckRun::MissingFieldRejected => crate::checks::meta::missing_required_field_rejected(context, &mut sink),
            CheckRun::MissingFieldHttpStatus => crate::checks::meta::missing_required_field_http_status(context, &mut sink),
            CheckRun::MissingCapabilityHttpStatus => crate::checks::meta::missing_capability_http_status(context, &mut sink),
            CheckRun::MissingCapabilityError => crate::checks::meta::missing_capability_error(context, &mut sink),
            CheckRun::NoUndeclaredReliance => crate::checks::meta::no_undeclared_capability_reliance(context, &mut sink),
            CheckRun::SubscriptionIdPresent => crate::checks::meta::subscription_id_present(context, &mut sink),
            CheckRun::InputRequiredSupported => crate::checks::mrtr::input_required_supported_methods(context, &mut sink),
            CheckRun::InputRequestMethods => crate::checks::mrtr::input_request_methods(context, &mut sink),
            CheckRun::InputRequiredHasContent => crate::checks::mrtr::input_required_has_content(context, &mut sink),
            CheckRun::RetryCarriesResponses => crate::checks::mrtr::retry_carries_input_responses(context, &mut sink),
            CheckRun::RequestStateEchoed => crate::checks::mrtr::request_state_echoed(context, &mut sink),
            CheckRun::NoUnsolicitedState => crate::checks::mrtr::no_unsolicited_request_state(context, &mut sink),
            CheckRun::RetryIdDiffers => crate::checks::mrtr::retry_id_differs(context, &mut sink),
            CheckRun::StateScopedToRetry => crate::checks::mrtr::request_state_scoped_to_retry(context, &mut sink),
            CheckRun::MissingInputReasked => crate::checks::mrtr::missing_input_reasked(context, &mut sink),
            CheckRun::OnlyRequestedNotifications => crate::checks::subscriptions::only_requested_notifications(context, &mut sink),
            CheckRun::AcknowledgmentFirst => crate::checks::subscriptions::acknowledgment_first(context, &mut sink),
            CheckRun::GracefulCloseResultShape => crate::checks::subscriptions::graceful_close_result_empty(context, &mut sink),
            CheckRun::DeterministicOrder => crate::checks::features::deterministic_order(context, &mut sink),
            CheckRun::HeaderIntegerRange => crate::checks::features::x_mcp_header_integer_range(context, &mut sink),
            CheckRun::ReadContentsNonEmpty => crate::checks::features::read_contents_non_empty(context, &mut sink),
            CheckRun::VersionHeaderPresent => crate::checks::headers::protocol_version_header_present(context, &mut sink),
            CheckRun::VersionHeaderMatchesBody => crate::checks::headers::protocol_version_header_matches_body(context, &mut sink),
            CheckRun::RequestMetadataHeaders => crate::checks::headers::request_metadata_headers(context, &mut sink),
            CheckRun::HeaderValueEncoding => crate::checks::headers::header_value_encoding(context, &mut sink),
            CheckRun::SentinelMarkerCase => crate::checks::headers::sentinel_marker_case(context, &mut sink),
            CheckRun::SentinelPatternEncoded => crate::checks::headers::sentinel_pattern_encoded(context, &mut sink),
            CheckRun::HeaderMirrored => crate::checks::headers::x_mcp_header_mirrored(context, &mut sink),
            CheckRun::HeaderNameValid => crate::checks::headers::x_mcp_header_name_valid(context, &mut sink),
            CheckRun::VersionMismatchRejected => crate::checks::validation::version_mismatch_rejected(context, &mut sink),
            CheckRun::InvalidParamRejected => crate::checks::validation::invalid_param_header_rejected(context, &mut sink),
            CheckRun::HeaderMismatchStatus => crate::checks::validation::header_mismatch_status(context, &mut sink),
            CheckRun::HeaderBodyMatchValidated => crate::checks::validation::header_body_match_validated(context, &mut sink),
            CheckRun::UnsupportedVersionError => crate::checks::validation::unsupported_version_error(context, &mut sink),
            CheckRun::UnknownMethod404 => crate::checks::validation::unknown_method_404(context, &mut sink),
            CheckRun::ClientNoResponses => crate::checks::stream::client_no_responses(context, &mut sink),
            CheckRun::NoIndependentServerRequests => crate::checks::stream::no_independent_server_requests(context, &mut sink),
            CheckRun::AccelBufferingHeader => crate::checks::stream::accel_buffering_header(context, &mut sink),
            CheckRun::NoMessagesAfterCancellation => crate::checks::stream::no_messages_after_cancellation(context, &mut sink),
            CheckRun::CancelNotificationReferencesRequest => crate::checks::stdio::cancel_notification_references_request(context, &mut sink),
            CheckRun::NoMessagesAfterCancelNotification => crate::checks::stdio::no_messages_after_cancel_notification(context, &mut sink),
            CheckRun::ClientMessagesUsePost => crate::checks::bindings::client_messages_use_post(context, &mut sink),
            CheckRun::ClientGetAcceptHeader => crate::checks::bindings::client_get_accept_header(context, &mut sink),
            CheckRun::ClientPostAcceptHeader => crate::checks::bindings::client_post_accept_header(context, &mut sink),
            CheckRun::ProtocolVersionNegotiated => crate::checks::bindings::protocol_version_negotiated(context, &mut sink),
            CheckRun::ProtocolVersionHeader => crate::checks::bindings::protocol_version_header(context, &mut sink),
            CheckRun::SessionIdEchoed => crate::checks::bindings::session_id_echoed(context, &mut sink),
            CheckRun::SessionIdVisibleAscii => crate::checks::bindings::session_id_visible_ascii(context, &mut sink),
            CheckRun::StdioClientInputValid => crate::checks::bindings::stdio_client_input_valid(context, &mut sink),
            CheckRun::StdioServerOutputValid => crate::checks::bindings::stdio_server_output_valid(context, &mut sink),
            CheckRun::CursorOpacity => crate::checks::utilities::cursor_opacity(context, &mut sink),
            CheckRun::CompletionCapabilityDeclared => crate::checks::utilities::completion_capability_declared(context, &mut sink),
            CheckRun::LoggingCapabilityDeclared => crate::checks::utilities::logging_capability_declared(context, &mut sink),
            CheckRun::BlobBase64 => crate::checks::resources::blob_base64(context, &mut sink),
            CheckRun::UriSchemeRfc3986 => crate::checks::resources::uri_scheme_rfc3986(context, &mut sink),
            CheckRun::ResourcesCapabilityDeclared => crate::checks::resources::capability_declared(context, &mut sink),
            CheckRun::ArgumentsValidated => crate::checks::prompts::arguments_validated(context, &mut sink),
            CheckRun::EmbeddedResourceShape => crate::checks::prompts::embedded_resource_shape(context, &mut sink),
            CheckRun::AudioContentEncoding => crate::checks::prompts::audio_content_encoding(context, &mut sink),
            CheckRun::ImageContentEncoding => crate::checks::prompts::image_content_encoding(context, &mut sink),
            CheckRun::PromptsCapabilityDeclared => crate::checks::prompts::capability_declared(context, &mut sink),
            CheckRun::OutputSchemaStructuredResult => crate::checks::tools::output_schema_structured_result(context, &mut sink),
            CheckRun::StructuredContentText => crate::checks::tools::structured_content_text(context, &mut sink),
            CheckRun::EmbeddedResourceCapability => crate::checks::tools::embedded_resource_capability(context, &mut sink),
            CheckRun::NameUnique => crate::checks::tools::name_unique(context, &mut sink),
            CheckRun::NameCharset => crate::checks::tools::name_charset(context, &mut sink),
            CheckRun::NameLength => crate::checks::tools::name_length(context, &mut sink),
            CheckRun::InputSchemaObject => crate::checks::tools::input_schema_object(context, &mut sink),
            CheckRun::ToolsCapabilityDeclared => crate::checks::tools::capability_declared(context, &mut sink),
            CheckRun::NegotiatedCapabilitiesOnly => crate::checks::negotiation::negotiated_capabilities_only(context, &mut sink),
            CheckRun::InitializeProtocolVersion => crate::checks::lifecycle::initialize_protocol_version(context, &mut sink),
            CheckRun::InitializeResultShape => crate::checks::lifecycle::initialize_result_shape(context, &mut sink),
            CheckRun::InitializeResultVersion => crate::checks::lifecycle::initialize_result_version(context, &mut sink),
            CheckRun::ServerRequestsBeforeInitialized => crate::checks::lifecycle::server_requests_before_initialized(context, &mut sink),
            CheckRun::ClientRequestsBeforeInitResponse => crate::checks::lifecycle::client_requests_before_init_response(context, &mut sink),
            CheckRun::InitializedNotification => crate::checks::lifecycle::initialized_notification(context, &mut sink),
            CheckRun::InitializeParams => crate::checks::lifecycle::initialize_params(context, &mut sink),
            CheckRun::FirstInteractionInitialize => crate::checks::lifecycle::first_interaction_initialize(context, &mut sink),
            CheckRun::ResultField => crate::checks::base::result_field(context, &mut sink),
            CheckRun::ErrorIdMatches => crate::checks::base::error_id_matches(context, &mut sink),
            CheckRun::JsonrpcVersion => crate::checks::base::jsonrpc_version(context, &mut sink),
            CheckRun::ErrorCodeInteger => crate::checks::base::error_code_integer(context, &mut sink),
            CheckRun::ErrorShape => crate::checks::base::error_shape(context, &mut sink),
            CheckRun::NotificationNoId => crate::checks::base::notification_no_id(context, &mut sink),
            CheckRun::ResultIdMatches => crate::checks::base::result_id_matches(context, &mut sink),
            CheckRun::RequestIdUnique => crate::checks::base::request_id_unique(context, &mut sink),
            CheckRun::RequestIdNotNull => crate::checks::base::request_id_not_null(context, &mut sink),
            CheckRun::RequestIdType => crate::checks::base::request_id_type(context, &mut sink),
        }
        assert(entry_seqs(Seq::<(Option<u64>, String)>::empty()) =~= Seq::<Option<u64>>::empty());
        proof {
            if let Some(d) = uniform_detail(self.runs()) {
                lemma_uniform_details(Seq::empty(), sink.found(), d, check_sites(self.runs(), context.trace(), context.pairs()));
                assert(entry_views(Seq::<(Option<u64>, String)>::empty()) =~= Seq::<(Option<u64>, Seq<char>)>::empty());
            }
        }
        sink.finish()
    }
}

/// How many checks this build registers.
pub open spec fn registry_len() -> int {
    118
}

/// The registered check at position `i`, in stable order: its ID, and what it
/// runs.
pub open spec fn registry_at(i: int) -> (Seq<char>, CheckRun) {
    if i == 0 {
        ("base.request-id-type"@, CheckRun::RequestIdType)
    } else
    if i == 1 {
        ("base.request-id-not-null"@, CheckRun::RequestIdNotNull)
    } else
    if i == 2 {
        ("base.request-id-unique"@, CheckRun::RequestIdUnique)
    } else
    if i == 3 {
        ("base.result-id-matches"@, CheckRun::ResultIdMatches)
    } else
    if i == 4 {
        ("base.notification-no-id"@, CheckRun::NotificationNoId)
    } else
    if i == 5 {
        ("base.error-shape"@, CheckRun::ErrorShape)
    } else
    if i == 6 {
        ("base.error-code-integer"@, CheckRun::ErrorCodeInteger)
    } else
    if i == 7 {
        ("base.jsonrpc-version"@, CheckRun::JsonrpcVersion)
    } else
    if i == 8 {
        ("base.error-id-matches"@, CheckRun::ErrorIdMatches)
    } else
    if i == 9 {
        ("base.result-field"@, CheckRun::ResultField)
    } else
    if i == 10 {
        ("lifecycle.first-interaction-initialize"@, CheckRun::FirstInteractionInitialize)
    } else
    if i == 11 {
        ("lifecycle.initialize-params"@, CheckRun::InitializeParams)
    } else
    if i == 12 {
        ("lifecycle.initialized-notification"@, CheckRun::InitializedNotification)
    } else
    if i == 13 {
        ("lifecycle.client-requests-before-init-response"@, CheckRun::ClientRequestsBeforeInitResponse)
    } else
    if i == 14 {
        ("lifecycle.server-requests-before-initialized"@, CheckRun::ServerRequestsBeforeInitialized)
    } else
    if i == 15 {
        ("lifecycle.initialize-result-version"@, CheckRun::InitializeResultVersion)
    } else
    if i == 16 {
        ("lifecycle.initialize-result-shape"@, CheckRun::InitializeResultShape)
    } else
    if i == 17 {
        ("lifecycle.initialize-protocol-version"@, CheckRun::InitializeProtocolVersion)
    } else
    if i == 18 {
        ("lifecycle.negotiated-capabilities-only"@, CheckRun::NegotiatedCapabilitiesOnly)
    } else
    if i == 19 {
        ("tools.capability-declared"@, CheckRun::ToolsCapabilityDeclared)
    } else
    if i == 20 {
        ("tools.input-schema-object"@, CheckRun::InputSchemaObject)
    } else
    if i == 21 {
        ("tools.name-length"@, CheckRun::NameLength)
    } else
    if i == 22 {
        ("tools.name-charset"@, CheckRun::NameCharset)
    } else
    if i == 23 {
        ("tools.name-unique"@, CheckRun::NameUnique)
    } else
    if i == 24 {
        ("tools.embedded-resource-capability"@, CheckRun::EmbeddedResourceCapability)
    } else
    if i == 25 {
        ("tools.structured-content-text"@, CheckRun::StructuredContentText)
    } else
    if i == 26 {
        ("tools.output-schema-structured-result"@, CheckRun::OutputSchemaStructuredResult)
    } else
    if i == 27 {
        ("prompts.capability-declared"@, CheckRun::PromptsCapabilityDeclared)
    } else
    if i == 28 {
        ("prompts.image-content-encoding"@, CheckRun::ImageContentEncoding)
    } else
    if i == 29 {
        ("prompts.audio-content-encoding"@, CheckRun::AudioContentEncoding)
    } else
    if i == 30 {
        ("prompts.embedded-resource-shape"@, CheckRun::EmbeddedResourceShape)
    } else
    if i == 31 {
        ("prompts.arguments-validated"@, CheckRun::ArgumentsValidated)
    } else
    if i == 32 {
        ("resources.capability-declared"@, CheckRun::ResourcesCapabilityDeclared)
    } else
    if i == 33 {
        ("resources.uri-scheme-rfc3986"@, CheckRun::UriSchemeRfc3986)
    } else
    if i == 34 {
        ("resources.blob-base64"@, CheckRun::BlobBase64)
    } else
    if i == 35 {
        ("logging.capability-declared"@, CheckRun::LoggingCapabilityDeclared)
    } else
    if i == 36 {
        ("completion.capability-declared"@, CheckRun::CompletionCapabilityDeclared)
    } else
    if i == 37 {
        ("pagination.cursor-opacity"@, CheckRun::CursorOpacity)
    } else
    if i == 38 {
        ("transport.stdio-server-output-valid"@, CheckRun::StdioServerOutputValid)
    } else
    if i == 39 {
        ("transport.stdio-client-input-valid"@, CheckRun::StdioClientInputValid)
    } else
    if i == 40 {
        ("transport.session-id-visible-ascii"@, CheckRun::SessionIdVisibleAscii)
    } else
    if i == 41 {
        ("transport.session-id-echoed"@, CheckRun::SessionIdEchoed)
    } else
    if i == 42 {
        ("transport.protocol-version-header"@, CheckRun::ProtocolVersionHeader)
    } else
    if i == 43 {
        ("transport.protocol-version-negotiated"@, CheckRun::ProtocolVersionNegotiated)
    } else
    if i == 44 {
        ("transport.client-post-accept-header"@, CheckRun::ClientPostAcceptHeader)
    } else
    if i == 45 {
        ("transport.client-get-accept-header"@, CheckRun::ClientGetAcceptHeader)
    } else
    if i == 46 {
        ("transport.client-messages-use-post"@, CheckRun::ClientMessagesUsePost)
    } else
    if i == 47 {
        ("base.result-type-present"@, CheckRun::ResultTypePresent)
    } else
    if i == 48 {
        ("base.request-id-unique-in-flight"@, CheckRun::RequestIdUniqueInFlight)
    } else
    if i == 49 {
        ("base.error-code-legacy-subrange"@, CheckRun::ErrorCode(CodeRule::Legacy))
    } else
    if i == 50 {
        ("base.error-code-reserved-subrange"@, CheckRun::ErrorCode(CodeRule::Reserved))
    } else
    if i == 51 {
        ("base.error-code-withdrawn"@, CheckRun::ErrorCode(CodeRule::Withdrawn))
    } else
    if i == 52 {
        ("base.error-code-application-range"@, CheckRun::ErrorCode(CodeRule::Application))
    } else
    if i == 53 {
        ("discover.implemented"@, CheckRun::DiscoverImplemented)
    } else
    if i == 54 {
        ("discover.dual-era-probe-first"@, CheckRun::DiscoverProbeFirst)
    } else
    if i == 55 {
        ("base.meta-key-format"@, CheckRun::MetaKeyFormat)
    } else
    if i == 56 {
        ("versioning.retry-uses-supported-version"@, CheckRun::RetryUsesSupportedVersion)
    } else
    if i == 57 {
        ("versioning.extension-identifier-format"@, CheckRun::ExtensionIdentifierFormat)
    } else
    if i == 58 {
        ("versioning.initialize-error-names-versions"@, CheckRun::InitializeErrorNamesVersions)
    } else
    if i == 59 {
        ("caching.hints-on-cacheable-results"@, CheckRun::CacheHints)
    } else
    if i == 60 {
        ("caching.ttl-non-negative"@, CheckRun::CacheTtl)
    } else
    if i == 61 {
        ("caching.page-scope-consistent"@, CheckRun::CacheScope)
    } else
    if i == 62 {
        ("pagination.invalid-cursor-rejected"@, CheckRun::InvalidCursor)
    } else
    if i == 63 {
        ("logging.level-requested"@, CheckRun::LogLevelRequested)
    } else
    if i == 64 {
        ("logging.not-on-subscription"@, CheckRun::LogNotOnSubscription)
    } else
    if i == 65 {
        ("logging.invalid-level-rejected"@, CheckRun::LogInvalidLevel)
    } else
    if i == 66 {
        ("capabilities.completions-declared"@, CheckRun::CompletionsDeclared)
    } else
    if i == 67 {
        ("capabilities.logging-declared"@, CheckRun::LoggingDeclared)
    } else
    if i == 68 {
        ("capabilities.tools-declared"@, CheckRun::ToolsDeclared)
    } else
    if i == 69 {
        ("capabilities.resources-declared"@, CheckRun::ResourcesDeclared)
    } else
    if i == 70 {
        ("capabilities.prompts-declared"@, CheckRun::PromptsDeclared)
    } else
    if i == 71 {
        ("capabilities.tools-list-implemented"@, CheckRun::ToolsListImplemented)
    } else
    if i == 72 {
        ("capabilities.resources-list-implemented"@, CheckRun::ResourcesListImplemented)
    } else
    if i == 73 {
        ("capabilities.prompts-list-implemented"@, CheckRun::PromptsListImplemented)
    } else
    if i == 74 {
        ("capabilities.embedded-resource-declared"@, CheckRun::EmbeddedResourceDeclared)
    } else
    if i == 75 {
        ("meta.trace-context-format"@, CheckRun::TraceContextFormat)
    } else
    if i == 76 {
        ("meta.required-request-fields"@, CheckRun::RequiredRequestFields)
    } else
    if i == 77 {
        ("meta.missing-required-field-rejected"@, CheckRun::MissingFieldRejected)
    } else
    if i == 78 {
        ("meta.missing-required-field-http-status"@, CheckRun::MissingFieldHttpStatus)
    } else
    if i == 79 {
        ("meta.missing-capability-http-status"@, CheckRun::MissingCapabilityHttpStatus)
    } else
    if i == 80 {
        ("meta.missing-capability-error"@, CheckRun::MissingCapabilityError)
    } else
    if i == 81 {
        ("meta.no-undeclared-capability-reliance"@, CheckRun::NoUndeclaredReliance)
    } else
    if i == 82 {
        ("meta.subscription-id-present"@, CheckRun::SubscriptionIdPresent)
    } else
    if i == 83 {
        ("mrtr.input-required-supported-methods"@, CheckRun::InputRequiredSupported)
    } else
    if i == 84 {
        ("mrtr.input-request-methods"@, CheckRun::InputRequestMethods)
    } else
    if i == 85 {
        ("mrtr.input-required-has-content"@, CheckRun::InputRequiredHasContent)
    } else
    if i == 86 {
        ("mrtr.retry-carries-input-responses"@, CheckRun::RetryCarriesResponses)
    } else
    if i == 87 {
        ("mrtr.request-state-echoed"@, CheckRun::RequestStateEchoed)
    } else
    if i == 88 {
        ("mrtr.no-unsolicited-request-state"@, CheckRun::NoUnsolicitedState)
    } else
    if i == 89 {
        ("mrtr.retry-id-differs"@, CheckRun::RetryIdDiffers)
    } else
    if i == 90 {
        ("mrtr.request-state-scoped-to-retry"@, CheckRun::StateScopedToRetry)
    } else
    if i == 91 {
        ("mrtr.missing-input-reasked"@, CheckRun::MissingInputReasked)
    } else
    if i == 92 {
        ("subscriptions.only-requested-notifications"@, CheckRun::OnlyRequestedNotifications)
    } else
    if i == 93 {
        ("subscriptions.acknowledgment-first"@, CheckRun::AcknowledgmentFirst)
    } else
    if i == 94 {
        ("subscriptions.graceful-close-result-shape"@, CheckRun::GracefulCloseResultShape)
    } else
    if i == 95 {
        ("tools.deterministic-order"@, CheckRun::DeterministicOrder)
    } else
    if i == 96 {
        ("tools.x-mcp-header-integer-range"@, CheckRun::HeaderIntegerRange)
    } else
    if i == 97 {
        ("resources.read-contents-non-empty"@, CheckRun::ReadContentsNonEmpty)
    } else
    if i == 98 {
        ("transport.protocol-version-header-present"@, CheckRun::VersionHeaderPresent)
    } else
    if i == 99 {
        ("transport.protocol-version-header-matches-body"@, CheckRun::VersionHeaderMatchesBody)
    } else
    if i == 100 {
        ("transport.request-metadata-headers"@, CheckRun::RequestMetadataHeaders)
    } else
    if i == 101 {
        ("transport.header-value-encoding"@, CheckRun::HeaderValueEncoding)
    } else
    if i == 102 {
        ("transport.sentinel-marker-case"@, CheckRun::SentinelMarkerCase)
    } else
    if i == 103 {
        ("transport.sentinel-pattern-encoded"@, CheckRun::SentinelPatternEncoded)
    } else
    if i == 104 {
        ("transport.x-mcp-header-mirrored"@, CheckRun::HeaderMirrored)
    } else
    if i == 105 {
        ("transport.x-mcp-header-name-valid"@, CheckRun::HeaderNameValid)
    } else
    if i == 106 {
        ("transport.version-mismatch-rejected"@, CheckRun::VersionMismatchRejected)
    } else
    if i == 107 {
        ("transport.invalid-param-header-rejected"@, CheckRun::InvalidParamRejected)
    } else
    if i == 108 {
        ("transport.header-mismatch-status"@, CheckRun::HeaderMismatchStatus)
    } else
    if i == 109 {
        ("transport.header-body-match-validated"@, CheckRun::HeaderBodyMatchValidated)
    } else
    if i == 110 {
        ("transport.unsupported-version-error"@, CheckRun::UnsupportedVersionError)
    } else
    if i == 111 {
        ("transport.unknown-method-404"@, CheckRun::UnknownMethod404)
    } else
    if i == 112 {
        ("transport.client-no-responses"@, CheckRun::ClientNoResponses)
    } else
    if i == 113 {
        ("transport.no-independent-server-requests"@, CheckRun::NoIndependentServerRequests)
    } else
    if i == 114 {
        ("transport.accel-buffering-header"@, CheckRun::AccelBufferingHeader)
    } else
    if i == 115 {
        ("transport.no-messages-after-cancellation"@, CheckRun::NoMessagesAfterCancellation)
    } else
    if i == 116 {
        ("transport.cancel-notification-references-request"@, CheckRun::CancelNotificationReferencesRequest)
    } else {
        ("transport.no-messages-after-cancel-notification"@, CheckRun::NoMessagesAfterCancelNotification)
    }
}

/// What the first registered check at or after position `i` with ID `id`
/// runs.
pub open spec fn first_match(id: Seq<char>, i: int) -> Option<CheckRun>
    decreases registry_len() - i,
{
    if i < 0 || i >= registry_len() {
        None
    } else if registry_at(i).0 == id {
        Some(registry_at(i).1)
    } else {
        first_match(id, i + 1)
    }
}

/// What the check registered under `id` runs, if one is: the first with that
/// ID.
pub open spec fn registered(id: Seq<char>) -> Option<CheckRun> {
    first_match(id, 0)
}

/// The registered check at position `i`.
fn check_at(i: usize) -> (c: Check)
    requires
        i < registry_len(),
    ensures
        c.id_text() == registry_at(i as int).0,
        c.runs() == registry_at(i as int).1,
{
    match i {
        0 => Check { id: "base.request-id-type", run: CheckRun::RequestIdType },
        1 => Check { id: "base.request-id-not-null", run: CheckRun::RequestIdNotNull },
        2 => Check { id: "base.request-id-unique", run: CheckRun::RequestIdUnique },
        3 => Check { id: "base.result-id-matches", run: CheckRun::ResultIdMatches },
        4 => Check { id: "base.notification-no-id", run: CheckRun::NotificationNoId },
        5 => Check { id: "base.error-shape", run: CheckRun::ErrorShape },
        6 => Check { id: "base.error-code-integer", run: CheckRun::ErrorCodeInteger },
        7 => Check { id: "base.jsonrpc-version", run: CheckRun::JsonrpcVersion },
        8 => Check { id: "base.error-id-matches", run: CheckRun::ErrorIdMatches },
        9 => Check { id: "base.result-field", run: CheckRun::ResultField },
        10 => Check { id: "lifecycle.first-interaction-initialize", run: CheckRun::FirstInteractionInitialize },
        11 => Check { id: "lifecycle.initialize-params", run: CheckRun::InitializeParams },
        12 => Check { id: "lifecycle.initialized-notification", run: CheckRun::InitializedNotification },
        13 => Check { id: "lifecycle.client-requests-before-init-response", run: CheckRun::ClientRequestsBeforeInitResponse },
        14 => Check { id: "lifecycle.server-requests-before-initialized", run: CheckRun::ServerRequestsBeforeInitialized },
        15 => Check { id: "lifecycle.initialize-result-version", run: CheckRun::InitializeResultVersion },
        16 => Check { id: "lifecycle.initialize-result-shape", run: CheckRun::InitializeResultShape },
        17 => Check { id: "lifecycle.initialize-protocol-version", run: CheckRun::InitializeProtocolVersion },
        18 => Check { id: "lifecycle.negotiated-capabilities-only", run: CheckRun::NegotiatedCapabilitiesOnly },
        19 => Check { id: "tools.capability-declared", run: CheckRun::ToolsCapabilityDeclared },
        20 => Check { id: "tools.input-schema-object", run: CheckRun::InputSchemaObject },
        21 => Check { id: "tools.name-length", run: CheckRun::NameLength },
        22 => Check { id: "tools.name-charset", run: CheckRun::NameCharset },
        23 => Check { id: "tools.name-unique", run: CheckRun::NameUnique },
        24 => Check { id: "tools.embedded-resource-capability", run: CheckRun::EmbeddedResourceCapability },
        25 => Check { id: "tools.structured-content-text", run: CheckRun::StructuredContentText },
        26 => Check { id: "tools.output-schema-structured-result", run: CheckRun::OutputSchemaStructuredResult },
        27 => Check { id: "prompts.capability-declared", run: CheckRun::PromptsCapabilityDeclared },
        28 => Check { id: "prompts.image-content-encoding", run: CheckRun::ImageContentEncoding },
        29 => Check { id: "prompts.audio-content-encoding", run: CheckRun::AudioContentEncoding },
        30 => Check { id: "prompts.embedded-resource-shape", run: CheckRun::EmbeddedResourceShape },
        31 => Check { id: "prompts.arguments-validated", run: CheckRun::ArgumentsValidated },
        32 => Check { id: "resources.capability-declared", run: CheckRun::ResourcesCapabilityDeclared },
        33 => Check { id: "resources.uri-scheme-rfc3986", run: CheckRun::UriSchemeRfc3986 },
        34 => Check { id: "resources.blob-base64", run: CheckRun::BlobBase64 },
        35 => Check { id: "logging.capability-declared", run: CheckRun::LoggingCapabilityDeclared },
        36 => Check { id: "completion.capability-declared", run: CheckRun::CompletionCapabilityDeclared },
        37 => Check { id: "pagination.cursor-opacity", run: CheckRun::CursorOpacity },
        38 => Check { id: "transport.stdio-server-output-valid", run: CheckRun::StdioServerOutputValid },
        39 => Check { id: "transport.stdio-client-input-valid", run: CheckRun::StdioClientInputValid },
        40 => Check { id: "transport.session-id-visible-ascii", run: CheckRun::SessionIdVisibleAscii },
        41 => Check { id: "transport.session-id-echoed", run: CheckRun::SessionIdEchoed },
        42 => Check { id: "transport.protocol-version-header", run: CheckRun::ProtocolVersionHeader },
        43 => Check { id: "transport.protocol-version-negotiated", run: CheckRun::ProtocolVersionNegotiated },
        44 => Check { id: "transport.client-post-accept-header", run: CheckRun::ClientPostAcceptHeader },
        45 => Check { id: "transport.client-get-accept-header", run: CheckRun::ClientGetAcceptHeader },
        46 => Check { id: "transport.client-messages-use-post", run: CheckRun::ClientMessagesUsePost },
        47 => Check { id: "base.result-type-present", run: CheckRun::ResultTypePresent },
        48 => Check { id: "base.request-id-unique-in-flight", run: CheckRun::RequestIdUniqueInFlight },
        49 => Check { id: "base.error-code-legacy-subrange", run: CheckRun::ErrorCode(CodeRule::Legacy) },
        50 => Check { id: "base.error-code-reserved-subrange", run: CheckRun::ErrorCode(CodeRule::Reserved) },
        51 => Check { id: "base.error-code-withdrawn", run: CheckRun::ErrorCode(CodeRule::Withdrawn) },
        52 => Check { id: "base.error-code-application-range", run: CheckRun::ErrorCode(CodeRule::Application) },
        53 => Check { id: "discover.implemented", run: CheckRun::DiscoverImplemented },
        54 => Check { id: "discover.dual-era-probe-first", run: CheckRun::DiscoverProbeFirst },
        55 => Check { id: "base.meta-key-format", run: CheckRun::MetaKeyFormat },
        56 => Check { id: "versioning.retry-uses-supported-version", run: CheckRun::RetryUsesSupportedVersion },
        57 => Check { id: "versioning.extension-identifier-format", run: CheckRun::ExtensionIdentifierFormat },
        58 => Check { id: "versioning.initialize-error-names-versions", run: CheckRun::InitializeErrorNamesVersions },
        59 => Check { id: "caching.hints-on-cacheable-results", run: CheckRun::CacheHints },
        60 => Check { id: "caching.ttl-non-negative", run: CheckRun::CacheTtl },
        61 => Check { id: "caching.page-scope-consistent", run: CheckRun::CacheScope },
        62 => Check { id: "pagination.invalid-cursor-rejected", run: CheckRun::InvalidCursor },
        63 => Check { id: "logging.level-requested", run: CheckRun::LogLevelRequested },
        64 => Check { id: "logging.not-on-subscription", run: CheckRun::LogNotOnSubscription },
        65 => Check { id: "logging.invalid-level-rejected", run: CheckRun::LogInvalidLevel },
        66 => Check { id: "capabilities.completions-declared", run: CheckRun::CompletionsDeclared },
        67 => Check { id: "capabilities.logging-declared", run: CheckRun::LoggingDeclared },
        68 => Check { id: "capabilities.tools-declared", run: CheckRun::ToolsDeclared },
        69 => Check { id: "capabilities.resources-declared", run: CheckRun::ResourcesDeclared },
        70 => Check { id: "capabilities.prompts-declared", run: CheckRun::PromptsDeclared },
        71 => Check { id: "capabilities.tools-list-implemented", run: CheckRun::ToolsListImplemented },
        72 => Check { id: "capabilities.resources-list-implemented", run: CheckRun::ResourcesListImplemented },
        73 => Check { id: "capabilities.prompts-list-implemented", run: CheckRun::PromptsListImplemented },
        74 => Check { id: "capabilities.embedded-resource-declared", run: CheckRun::EmbeddedResourceDeclared },
        75 => Check { id: "meta.trace-context-format", run: CheckRun::TraceContextFormat },
        76 => Check { id: "meta.required-request-fields", run: CheckRun::RequiredRequestFields },
        77 => Check { id: "meta.missing-required-field-rejected", run: CheckRun::MissingFieldRejected },
        78 => Check { id: "meta.missing-required-field-http-status", run: CheckRun::MissingFieldHttpStatus },
        79 => Check { id: "meta.missing-capability-http-status", run: CheckRun::MissingCapabilityHttpStatus },
        80 => Check { id: "meta.missing-capability-error", run: CheckRun::MissingCapabilityError },
        81 => Check { id: "meta.no-undeclared-capability-reliance", run: CheckRun::NoUndeclaredReliance },
        82 => Check { id: "meta.subscription-id-present", run: CheckRun::SubscriptionIdPresent },
        83 => Check { id: "mrtr.input-required-supported-methods", run: CheckRun::InputRequiredSupported },
        84 => Check { id: "mrtr.input-request-methods", run: CheckRun::InputRequestMethods },
        85 => Check { id: "mrtr.input-required-has-content", run: CheckRun::InputRequiredHasContent },
        86 => Check { id: "mrtr.retry-carries-input-responses", run: CheckRun::RetryCarriesResponses },
        87 => Check { id: "mrtr.request-state-echoed", run: CheckRun::RequestStateEchoed },
        88 => Check { id: "mrtr.no-unsolicited-request-state", run: CheckRun::NoUnsolicitedState },
        89 => Check { id: "mrtr.retry-id-differs", run: CheckRun::RetryIdDiffers },
        90 => Check { id: "mrtr.request-state-scoped-to-retry", run: CheckRun::StateScopedToRetry },
        91 => Check { id: "mrtr.missing-input-reasked", run: CheckRun::MissingInputReasked },
        92 => Check { id: "subscriptions.only-requested-notifications", run: CheckRun::OnlyRequestedNotifications },
        93 => Check { id: "subscriptions.acknowledgment-first", run: CheckRun::AcknowledgmentFirst },
        94 => Check { id: "subscriptions.graceful-close-result-shape", run: CheckRun::GracefulCloseResultShape },
        95 => Check { id: "tools.deterministic-order", run: CheckRun::DeterministicOrder },
        96 => Check { id: "tools.x-mcp-header-integer-range", run: CheckRun::HeaderIntegerRange },
        97 => Check { id: "resources.read-contents-non-empty", run: CheckRun::ReadContentsNonEmpty },
        98 => Check { id: "transport.protocol-version-header-present", run: CheckRun::VersionHeaderPresent },
        99 => Check { id: "transport.protocol-version-header-matches-body", run: CheckRun::VersionHeaderMatchesBody },
        100 => Check { id: "transport.request-metadata-headers", run: CheckRun::RequestMetadataHeaders },
        101 => Check { id: "transport.header-value-encoding", run: CheckRun::HeaderValueEncoding },
        102 => Check { id: "transport.sentinel-marker-case", run: CheckRun::SentinelMarkerCase },
        103 => Check { id: "transport.sentinel-pattern-encoded", run: CheckRun::SentinelPatternEncoded },
        104 => Check { id: "transport.x-mcp-header-mirrored", run: CheckRun::HeaderMirrored },
        105 => Check { id: "transport.x-mcp-header-name-valid", run: CheckRun::HeaderNameValid },
        106 => Check { id: "transport.version-mismatch-rejected", run: CheckRun::VersionMismatchRejected },
        107 => Check { id: "transport.invalid-param-header-rejected", run: CheckRun::InvalidParamRejected },
        108 => Check { id: "transport.header-mismatch-status", run: CheckRun::HeaderMismatchStatus },
        109 => Check { id: "transport.header-body-match-validated", run: CheckRun::HeaderBodyMatchValidated },
        110 => Check { id: "transport.unsupported-version-error", run: CheckRun::UnsupportedVersionError },
        111 => Check { id: "transport.unknown-method-404", run: CheckRun::UnknownMethod404 },
        112 => Check { id: "transport.client-no-responses", run: CheckRun::ClientNoResponses },
        113 => Check { id: "transport.no-independent-server-requests", run: CheckRun::NoIndependentServerRequests },
        114 => Check { id: "transport.accel-buffering-header", run: CheckRun::AccelBufferingHeader },
        115 => Check { id: "transport.no-messages-after-cancellation", run: CheckRun::NoMessagesAfterCancellation },
        116 => Check { id: "transport.cancel-notification-references-request", run: CheckRun::CancelNotificationReferencesRequest },
        _ => Check { id: "transport.no-messages-after-cancel-notification", run: CheckRun::NoMessagesAfterCancelNotification },
    }
}

/// Every check implemented by this build, in stable order.
pub fn all() -> (r: Vec<Check>)
    ensures
        r@.len() == registry_len(),
        forall|i: int| 0 <= i < r@.len() ==> (#[trigger] r@[i]).id_text() == registry_at(i).0
            && r@[i].runs() == registry_at(i).1,
{
    let mut v: Vec<Check> = Vec::new();
    let mut i: usize = 0;
    while i < 118
        invariant
            i <= registry_len(),
            v@.len() == i,
            forall|k: int| 0 <= k < i ==> (#[trigger] v@[k]).id_text() == registry_at(k).0
                && v@[k].runs() == registry_at(k).1,
        decreases registry_len() - i,
    {
        v.push(check_at(i));
        i = i + 1;
    }
    v
}

/// Looks up a check by its stable ID: the first registered check with that ID.
pub fn find(id: &str) -> (r: Option<Check>)
    ensures
        r matches Some(c) ==> c.id_text() == id@ && registered(id@) == Some(c.runs()),
        r is None ==> registered(id@) is None,
{
    let mut checks = all();
    let mut i: usize = 0;
    while i < checks.len()
        invariant
            checks@.len() == registry_len(),
            forall|k: int| 0 <= k < checks@.len() ==> (#[trigger] checks@[k]).id_text() == registry_at(k).0
                && checks@[k].runs() == registry_at(k).1,
            i <= checks@.len(),
            first_match(id@, 0) == first_match(id@, i as int),
        decreases checks@.len() - i,
    {
        assert(checks@[i as int].id_text() == registry_at(i as int).0);
        if text_eq(checks[i].id, id) {
            return Some(checks.remove(i));
        }
        i = i + 1;
    }
    None
}

} // verus!
