use mcp_trace_validator::checks::find;
use mcp_trace_validator::context::TraceContext;
use mcp_trace_validator::json::{Json, Number};
use mcp_trace_validator::trace::{events_from_records, TraceEvent};

/// The `_meta` envelope a conforming `2026-07-28` request carries.
#[allow(dead_code)]
const META: &str = r#""_meta":{"io.modelcontextprotocol/protocolVersion":"2026-07-28","io.modelcontextprotocol/clientCapabilities":{}}"#;

/// The library's value for a parsed JSON value.
fn to_json(value: &serde_json::Value) -> Json {
    match value {
        serde_json::Value::Null => Json::Null,
        serde_json::Value::Bool(b) => Json::Bool(*b),
        serde_json::Value::Number(n) => {
            if let Some(u) = n.as_u64() {
                Json::Num(Number::Unsigned(u))
            } else if let Some(i) = n.as_i64() {
                Json::Num(Number::Negative(i))
            } else {
                Json::Num(Number::Decimal(n.to_string()))
            }
        }
        serde_json::Value::String(s) => Json::Str(s.clone()),
        serde_json::Value::Array(items) => Json::Array(items.iter().map(to_json).collect()),
        serde_json::Value::Object(members) => Json::Object(
            members.iter().map(|(k, v)| (k.clone(), to_json(v))).collect(),
        ),
    }
}

/// Parses a JSON Lines trace, panicking with the reason if it is malformed.
#[allow(dead_code)]
fn events(trace: &str) -> Vec<TraceEvent> {
    let records: Vec<Json> = trace
        .lines()
        .filter(|line| !line.trim().is_empty())
        .map(|line| to_json(&serde_json::from_str(line).expect("test trace line is JSON")))
        .collect();
    events_from_records(records).expect("test trace parses")
}

/// The details one check reports for a trace, in event order.
#[allow(dead_code)]
fn findings_for(check: &str, trace: &str) -> Vec<String> {
    let events = events(trace);
    let context = TraceContext::new(&events);
    find(check)
        .expect("check is registered")
        .run(&context)
        .findings
        .into_iter()
        .map(|finding| finding.detail)
        .collect()
}

/// One JSON Lines record over Streamable HTTP.
#[allow(dead_code)]
fn line(seq: u64, direction: &str, kind: &str, rest: &str) -> String {
    format!(
        r#"{{"seq":{seq},"direction":"{direction}","transport":"streamable-http","kind":"{kind}","payload":{rest}}}"#
    )
}

/// A client message event.
#[allow(dead_code)]
fn client(seq: u64, payload: &str) -> String {
    line(seq, "client-to-server", "message", payload)
}

/// A server message event.
#[allow(dead_code)]
fn server(seq: u64, payload: &str) -> String {
    line(seq, "server-to-client", "message", payload)
}

/// A client POST's HTTP event, carrying `headers` verbatim as a JSON object.
#[allow(dead_code)]
fn post(seq: u64, headers: &str) -> String {
    format!(
        r#"{{"seq":{seq},"direction":"client-to-server","transport":"streamable-http","kind":"http","headers":{headers}}}"#
    )
}

/// A server response's HTTP event with a status and no headers.
#[allow(dead_code)]
fn status(seq: u64, status: u16) -> String {
    format!(
        r#"{{"seq":{seq},"direction":"server-to-client","transport":"streamable-http","kind":"http","status":{status}}}"#
    )
}

/// A server error response for `id` carrying `code`.
#[allow(dead_code)]
fn error(seq: u64, id: &str, code: i64) -> String {
    server(
        seq,
        &format!(r#"{{"jsonrpc":"2.0","id":{id},"error":{{"code":{code},"message":"x"}}}}"#),
    )
}

/// Joins record lines into a trace document.
#[allow(dead_code)]
fn trace(lines: &[String]) -> String {
    lines.join("\n")
}

use mcp_trace_validator::engine::{try_validate, validate, SeqOrderError};
use mcp_trace_validator::report::Outcome;
use mcp_trace_validator::requirement::{
    CapabilityGate, CapabilityParty, Level, Registry, Requirement, Verification,
};
use mcp_trace_validator::revision::ProtocolRevision;

fn requirement(id: &str, level: Level, checks: &[&str], gate: Option<CapabilityGate>) -> Requirement {
    Requirement {
        id: id.to_owned(),
        level,
        verification: Verification::Checks { checks: checks.iter().map(|c| (*c).to_owned()).collect() },
        capability: gate,
        section: "Lifecycle".to_owned(),
        quote: "The initialization phase MUST be the first interaction".to_owned(),
    }
}

fn registry(requirements: Vec<Requirement>) -> Registry {
    Registry::new(ProtocolRevision::parse("2025-11-25").unwrap(), requirements)
}

const TOOLS_LIST_FIRST: &str = r#"{"seq":0,"direction":"client-to-server","transport":"stdio","kind":"message","payload":{"jsonrpc":"2.0","id":1,"method":"tools/list"}}"#;

const HANDSHAKE: &str = r#"{"seq":0,"direction":"client-to-server","transport":"stdio","kind":"message","payload":{"jsonrpc":"2.0","id":1,"method":"initialize","params":{"protocolVersion":"2025-11-25","capabilities":{},"clientInfo":{"name":"t","version":"0"}}}}
{"seq":1,"direction":"server-to-client","transport":"stdio","kind":"message","payload":{"jsonrpc":"2.0","id":1,"result":{"protocolVersion":"2025-11-25","capabilities":{},"serverInfo":{"name":"s","version":"0"}}}}"#;

#[test]
fn tools_list_before_initialize_fails_the_requirement() {
    let registry = registry(vec![requirement(
        "lifecycle-init-first",
        Level::Must,
        &["lifecycle.first-interaction-initialize"],
        None,
    )]);
    let report = validate(&registry, &events(TOOLS_LIST_FIRST));
    assert_eq!(report.revision, "2025-11-25");
    assert_eq!(report.requirements.len(), 1);
    let row = &report.requirements[0];
    assert_eq!(row.id, "lifecycle-init-first");
    assert_eq!(row.level, "MUST");
    assert_eq!(row.outcome, Outcome::Fail);
    assert_eq!(row.findings.len(), 1);
    assert_eq!(row.findings[0].check, "lifecycle.first-interaction-initialize");
    assert_eq!(row.findings[0].seq, Some(0));
    let source = row.source.as_ref().expect("a broken clause names its source");
    assert_eq!(source.revision, "2025-11-25");
    assert_eq!(source.section, "Lifecycle");
    assert_eq!(report.totals.fail, 1);
    assert_eq!(report.totals.pass, 0);
}

#[test]
fn a_should_clause_broken_is_a_warning() {
    let registry = registry(vec![requirement(
        "init-first-should",
        Level::Should,
        &["lifecycle.first-interaction-initialize"],
        None,
    )]);
    let report = validate(&registry, &events(TOOLS_LIST_FIRST));
    assert_eq!(report.requirements[0].outcome, Outcome::Warn);
    assert_eq!(report.requirements[0].level, "SHOULD");
    assert_eq!(report.totals.warn, 1);
}

#[test]
fn a_clean_handshake_passes() {
    let registry = registry(vec![requirement(
        "lifecycle-init-first",
        Level::Must,
        &["lifecycle.first-interaction-initialize"],
        None,
    )]);
    let report = validate(&registry, &events(HANDSHAKE));
    let row = &report.requirements[0];
    assert_eq!(row.outcome, Outcome::Pass);
    assert!(row.findings.is_empty());
    assert!(row.source.is_none());
    assert_eq!(report.totals.pass, 1);
    assert!(report.revision_mismatch.is_none());
}

#[test]
fn an_excluded_requirement_is_reported_as_excluded() {
    let registry = registry(vec![Requirement {
        id: "out-of-band".to_owned(),
        level: Level::Must,
        verification: Verification::Excluded { exclusion: "not visible on the wire".to_owned() },
        capability: None,
        section: "Security".to_owned(),
        quote: "Servers MUST validate origins".to_owned(),
    }]);
    let report = validate(&registry, &events(TOOLS_LIST_FIRST));
    let row = &report.requirements[0];
    assert_eq!(row.outcome, Outcome::Excluded);
    assert_eq!(row.exclusion.as_deref(), Some("not visible on the wire"));
    assert_eq!(report.totals.excluded, 1);
}

#[test]
fn a_missing_check_makes_the_requirement_unsupported_before_its_gate_is_read() {
    let gate = CapabilityGate { party: CapabilityParty::Server, path: vec!["resources".to_owned()] };
    let registry = registry(vec![requirement(
        "needs-a-check",
        Level::Must,
        &["lifecycle.first-interaction-initialize", "no.such-check"],
        Some(gate),
    )]);
    let report = validate(&registry, &events(HANDSHAKE));
    let row = &report.requirements[0];
    assert_eq!(row.outcome, Outcome::Unsupported);
    assert_eq!(row.missing_checks, vec!["no.such-check".to_owned()]);
    assert!(row.capability.is_none());
    assert!(row.findings.is_empty());
    assert_eq!(report.totals.unsupported, 1);
}

#[test]
fn an_undeclared_capability_makes_the_requirement_not_applicable() {
    let gate = CapabilityGate {
        party: CapabilityParty::Server,
        path: vec!["resources".to_owned(), "subscribe".to_owned()],
    };
    let registry = registry(vec![requirement(
        "subscribe-clause",
        Level::Must,
        &["lifecycle.first-interaction-initialize"],
        Some(gate),
    )]);
    let report = validate(&registry, &events(TOOLS_LIST_FIRST));
    let row = &report.requirements[0];
    assert_eq!(row.outcome, Outcome::NotApplicable);
    assert_eq!(row.capability.as_deref(), Some("resources.subscribe"));
    assert!(row.findings.is_empty());
    assert_eq!(report.totals.not_applicable, 1);
}

#[test]
fn a_declared_capability_lets_the_checks_judge() {
    let gate = CapabilityGate { party: CapabilityParty::Client, path: vec!["roots".to_owned()] };
    let declared = HANDSHAKE.replace(r#""capabilities":{},"clientInfo""#, r#""capabilities":{"roots":{}},"clientInfo""#);
    let registry = registry(vec![requirement(
        "roots-clause",
        Level::Must,
        &["lifecycle.first-interaction-initialize"],
        Some(gate),
    )]);
    let report = validate(&registry, &events(&declared));
    assert_eq!(report.requirements[0].outcome, Outcome::Pass);
    assert!(report.requirements[0].capability.is_none());
}

#[test]
fn a_check_with_nothing_to_judge_leaves_the_requirement_not_observed() {
    let registry = registry(vec![requirement(
        "log-level-first",
        Level::Should,
        &["logging.level-requested"],
        None,
    )]);
    let report = validate(&registry, &events(HANDSHAKE));
    assert_eq!(report.requirements[0].outcome, Outcome::NotObserved);
    assert_eq!(report.totals.not_observed, 1);
}

#[test]
fn rows_follow_registry_order_and_totals_add_up() {
    let registry = registry(vec![
        requirement("first", Level::Must, &["lifecycle.first-interaction-initialize"], None),
        requirement("second", Level::Must, &["no.such-check"], None),
        requirement("third", Level::Should, &["lifecycle.first-interaction-initialize"], None),
    ]);
    let report = validate(&registry, &events(TOOLS_LIST_FIRST));
    let ids: Vec<&str> = report.requirements.iter().map(|r| r.id.as_str()).collect();
    assert_eq!(ids, ["first", "second", "third"]);
    let t = &report.totals;
    assert_eq!(
        t.pass + t.fail + t.warn + t.excluded + t.unsupported + t.not_applicable + t.not_observed,
        3
    );
    assert_eq!((t.fail, t.unsupported, t.warn), (1, 1, 1));
}

#[test]
fn try_validate_names_the_first_pair_out_of_order() {
    let registry = registry(vec![]);
    let line = |seq: u64| {
        format!(
            r#"{{"seq":{seq},"direction":"client-to-server","transport":"stdio","kind":"lifecycle","event":"transport-open"}}"#
        )
    };
    let mut events = events(&format!("{}\n{}", line(0), line(1)));
    events.swap(0, 1);
    let error = try_validate(&registry, &events).unwrap_err();
    assert_eq!((error.index, error.seq, error.previous), (1, 0, 1));
    assert_eq!(
        error.describe(),
        "event 1 has seq 0, not greater than the preceding seq 1; trace events must have strictly increasing seq"
    );
    assert_eq!(error, SeqOrderError { index: 1, seq: 0, previous: 1 });
}

#[test]
fn try_validate_on_ordered_events_is_validate() {
    let registry = registry(vec![requirement(
        "lifecycle-init-first",
        Level::Must,
        &["lifecycle.first-interaction-initialize"],
        None,
    )]);
    let events = events(TOOLS_LIST_FIRST);
    let tried = try_validate(&registry, &events).expect("ordered events validate");
    let direct = validate(&registry, &events);
    assert_eq!(tried.requirements[0].outcome, direct.requirements[0].outcome);
    assert_eq!(tried.totals.fail, direct.totals.fail);
    assert!(try_validate(&registry, &[]).is_ok());
}

#[test]
fn a_trace_declaring_another_revision_is_noted() {
    let registry = registry(vec![]);
    let document = r#"{"seq":0,"direction":"client-to-server","transport":"streamable-http","kind":"message","payload":{"jsonrpc":"2.0","id":1,"method":"tools/list","params":{"_meta":{"io.modelcontextprotocol/protocolVersion":"2026-07-28"}}}}"#;
    let report = validate(&registry, &events(document));
    assert_eq!(report.revision_mismatch, Some(vec!["2026-07-28".to_owned()]));
    assert!(report.requirements.is_empty());
}

#[test]
fn a_session_without_declarations_earns_no_verdict_on_them() {
    let registry = registry(vec![requirement(
        "tools-declared",
        Level::Must,
        &["tools.capability-declared", "lifecycle.negotiated-capabilities-only"],
        None,
    )]);
    let undeclared = r#"{"seq":0,"direction":"client-to-server","transport":"stdio","kind":"message","payload":{"jsonrpc":"2.0","id":2,"method":"tools/list"}}
{"seq":1,"direction":"server-to-client","transport":"stdio","kind":"message","payload":{"jsonrpc":"2.0","id":2,"result":{"tools":[]}}}"#;
    let report = validate(&registry, &events(undeclared));
    assert_eq!(report.requirements[0].outcome, Outcome::NotObserved);
    assert!(report.requirements[0].findings.is_empty());

    let withheld = format!(
        "{}\n{}",
        HANDSHAKE,
        r#"{"seq":2,"direction":"client-to-server","transport":"stdio","kind":"message","payload":{"jsonrpc":"2.0","id":2,"method":"tools/list"}}
{"seq":3,"direction":"server-to-client","transport":"stdio","kind":"message","payload":{"jsonrpc":"2.0","id":2,"result":{"tools":[]}}}"#
    );
    let report = validate(&registry, &events(&withheld));
    assert_eq!(report.requirements[0].outcome, Outcome::Fail);
}
