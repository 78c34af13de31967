use mcp_trace_validator::checks::find;
use mcp_trace_validator::context::TraceContext;
use mcp_trace_validator::json::{Json, Number};
use mcp_trace_validator::trace::{events_from_records, TraceEvent};

/// The `_meta` envelope a conforming `2026-07-28` request carries.
#[allow(dead_code)]
const META: &str = r#""_meta":{"io.modelcontextprotocol/protocolVersion":"2026-07-28","io.modelcontextprotocol/clientCapabilities":{}}"#;

/// The library's value for a parsed JSON value.
fn to_json(value: &serde_json::Value) -> Json {
    match value {
        serde_json::Value::Null => Json::Null,
        serde_json::Value::Bool(b) => Json::Bool(*b),
        serde_json::Value::Number(n) => {
            if let Some(u) = n.as_u64() {
                Json::Num(Number::Unsigned(u))
            } else if let Some(i) = n.as_i64() {
                Json::Num(Number::Negative(i))
            } else {
                Json::Num(Number::Decimal(n.to_string()))
            }
        }
        serde_json::Value::String(s) => Json::Str(s.clone()),
        serde_json::Value::Array(items) => Json::Array(items.iter().map(to_json).collect()),
        serde_json::Value::Object(members) => Json::Object(
            members.iter().map(|(k, v)| (k.clone(), to_json(v))).collect(),
        ),
    }
}

/// Parses a JSON Lines trace, panicking with the reason if it is malformed.
#[allow(dead_code)]
fn events(trace: &str) -> Vec<TraceEvent> {
    let records: Vec<Json> = trace
        .lines()
        .filter(|line| !line.trim().is_empty())
        .map(|line| to_json(&serde_json::from_str(line).expect("test trace line is JSON")))
        .collect();
    events_from_records(records).expect("test trace parses")
}

/// The details one check reports for a trace, in event order.
#[allow(dead_code)]
fn findings_for(check: &str, trace: &str) -> Vec<String> {
    let events = events(trace);
    let context = TraceContext::new(&events);
    find(check)
        .expect("check is registered")
        .run(&context)
        .findings
        .into_iter()
        .map(|finding| finding.detail)
        .collect()
}

/// One JSON Lines record over Streamable HTTP.
#[allow(dead_code)]
fn line(seq: u64, direction: &str, kind: &str, rest: &str) -> String {
    format!(
        r#"{{"seq":{seq},"direction":"{direction}","transport":"streamable-http","kind":"{kind}","payload":{rest}}}"#
    )
}

/// A client message event.
#[allow(dead_code)]
fn client(seq: u64, payload: &str) -> String {
    line(seq, "client-to-server", "message", payload)
}

/// A server message event.
#[allow(dead_code)]
fn server(seq: u64, payload: &str) -> String {
    line(seq, "server-to-client", "message", payload)
}

/// A client POST's HTTP event, carrying `headers` verbatim as a JSON object.
#[allow(dead_code)]
fn post(seq: u64, headers: &str) -> String {
    format!(
        r#"{{"seq":{seq},"direction":"client-to-server","transport":"streamable-http","kind":"http","headers":{headers}}}"#
    )
}

/// A server response's HTTP event with a status and no headers.
#[allow(dead_code)]
fn status(seq: u64, status: u16) -> String {
    format!(
        r#"{{"seq":{seq},"direction":"server-to-client","transport":"streamable-http","kind":"http","status":{status}}}"#
    )
}

/// A server error response for `id` carrying `code`.
#[allow(dead_code)]
fn error(seq: u64, id: &str, code: i64) -> String {
    server(
        seq,
        &format!(r#"{{"jsonrpc":"2.0","id":{id},"error":{{"code":{code},"message":"x"}}}}"#),
    )
}

/// Joins record lines into a trace document.
#[allow(dead_code)]
fn trace(lines: &[String]) -> String {
    lines.join("\n")
}

use mcp_trace_validator::declared::{
    builtin_revisions, declared_revisions, mismatch, mismatch_any, select, RevisionSource,
};
use mcp_trace_validator::revision::ProtocolRevision;

fn rev(revision: &str) -> ProtocolRevision {
    ProtocolRevision::parse(revision).unwrap()
}

const HANDSHAKE: &str = r#"{"seq":0,"direction":"client-to-server","transport":"stdio","kind":"message","payload":{"jsonrpc":"2.0","id":1,"method":"initialize","params":{"protocolVersion":"2025-11-25","capabilities":{},"clientInfo":{"name":"t","version":"0"}}}}
{"seq":1,"direction":"server-to-client","transport":"stdio","kind":"message","payload":{"jsonrpc":"2.0","id":1,"result":{"protocolVersion":"2025-11-25","capabilities":{},"serverInfo":{"name":"s","version":"0"}}}}"#;

#[test]
fn the_handshake_states_the_revision_from_both_ends() {
    assert_eq!(declared_revisions(&events(HANDSHAKE)), ["2025-11-25"]);
    assert!(mismatch(rev("2025-11-25"), &events(HANDSHAKE)).is_none());
}

#[test]
fn a_stateless_session_states_it_per_request() {
    let document = r#"{"seq":0,"direction":"client-to-server","transport":"streamable-http","kind":"message","payload":{"jsonrpc":"2.0","id":1,"method":"tools/list","params":{"_meta":{"io.modelcontextprotocol/protocolVersion":"2026-07-28"}}}}"#;
    assert_eq!(declared_revisions(&events(document)), ["2026-07-28"]);
    assert_eq!(
        mismatch(rev("2025-11-25"), &events(document)),
        Some(vec!["2026-07-28".to_owned()])
    );
}

#[test]
fn the_http_header_states_it_too() {
    let document = r#"{"seq":0,"direction":"client-to-server","transport":"streamable-http","kind":"http","method":"POST","headers":{"mcp-protocol-version":"2025-11-25"}}"#;
    assert_eq!(declared_revisions(&events(document)), ["2025-11-25"]);
}

#[test]
fn a_session_that_touched_the_registrys_revision_draws_no_note() {
    let document = r#"{"seq":0,"direction":"client-to-server","transport":"stdio","kind":"message","payload":{"jsonrpc":"2.0","id":1,"method":"initialize","params":{"protocolVersion":"2026-07-28","capabilities":{},"clientInfo":{"name":"t","version":"0"}}}}
{"seq":1,"direction":"server-to-client","transport":"stdio","kind":"message","payload":{"jsonrpc":"2.0","id":1,"result":{"protocolVersion":"2025-11-25","capabilities":{},"serverInfo":{"name":"s","version":"0"}}}}"#;
    assert_eq!(declared_revisions(&events(document)), ["2025-11-25", "2026-07-28"]);
    assert!(mismatch(rev("2025-11-25"), &events(document)).is_none());
    assert!(mismatch(rev("2026-07-28"), &events(document)).is_none());
}

#[test]
fn a_session_that_declares_nothing_draws_no_note() {
    let document = r#"{"seq":0,"direction":"client-to-server","transport":"stdio","kind":"message","payload":{"jsonrpc":"2.0","id":1,"method":"tools/list"}}"#;
    assert!(declared_revisions(&events(document)).is_empty());
    assert!(mismatch(rev("2025-11-25"), &events(document)).is_none());
}

#[test]
fn a_malformed_version_is_not_evidence_of_a_revision() {
    let document = r#"{"seq":0,"direction":"server-to-client","transport":"stdio","kind":"message","payload":{"jsonrpc":"2.0","id":1,"result":{"protocolVersion":"draft","capabilities":{},"serverInfo":{"name":"s","version":"0"}}}}"#;
    assert!(declared_revisions(&events(document)).is_empty());
    assert!(mismatch(rev("2025-11-25"), &events(document)).is_none());
}

#[test]
fn a_version_this_build_cannot_judge_is_not_a_declaration() {
    let document = r#"{"seq":0,"direction":"client-to-server","transport":"streamable-http","kind":"http","method":"POST","headers":{"mcp-protocol-version":"1900-01-01"}}
{"seq":1,"direction":"client-to-server","transport":"streamable-http","kind":"message","payload":{"jsonrpc":"2.0","id":1,"method":"tools/list","params":{"_meta":{"io.modelcontextprotocol/protocolVersion":"1900-01-01"}}}}"#;
    assert!(declared_revisions(&events(document)).is_empty());
    assert!(mismatch(rev("2025-11-25"), &events(document)).is_none());
}

#[test]
fn a_refused_request_states_no_revision() {
    let document = r#"{"seq":0,"direction":"client-to-server","transport":"stdio","kind":"message","payload":{"jsonrpc":"2.0","id":1,"method":"initialize","params":{"protocolVersion":"2025-11-25","capabilities":{},"clientInfo":{"name":"t","version":"0"}}}}
{"seq":1,"direction":"server-to-client","transport":"stdio","kind":"message","payload":{"jsonrpc":"2.0","id":1,"error":{"code":-32601,"message":"Method not found"}}}"#;
    assert!(declared_revisions(&events(document)).is_empty());
    assert!(mismatch(rev("2026-07-28"), &events(document)).is_none());
}

#[test]
fn a_headers_only_capture_still_states_its_revision() {
    let document = r#"{"seq":0,"direction":"client-to-server","transport":"streamable-http","kind":"http","method":"POST","headers":{"mcp-protocol-version":"2025-11-25"}}
{"seq":1,"direction":"client-to-server","transport":"streamable-http","kind":"message","payload":{"jsonrpc":"2.0","id":9,"method":"tools/list"}}
{"seq":2,"direction":"server-to-client","transport":"streamable-http","kind":"message","payload":{"jsonrpc":"2.0","id":9,"result":{"tools":[]}}}"#;
    assert_eq!(declared_revisions(&events(document)), ["2025-11-25"]);
}

#[test]
fn a_refused_request_takes_its_own_header_down_with_it() {
    let document = r#"{"seq":0,"direction":"client-to-server","transport":"streamable-http","kind":"http","method":"POST","headers":{"mcp-protocol-version":"2025-11-25"}}
{"seq":1,"direction":"client-to-server","transport":"streamable-http","kind":"message","payload":{"jsonrpc":"2.0","id":9,"method":"tools/list"}}
{"seq":2,"direction":"server-to-client","transport":"streamable-http","kind":"message","payload":{"jsonrpc":"2.0","id":9,"error":{"code":-32022,"message":"Unsupported protocol version"}}}"#;
    assert!(declared_revisions(&events(document)).is_empty());
}

#[test]
fn a_non_string_version_is_ignored_rather_than_stringified() {
    let document = r#"{"seq":0,"direction":"client-to-server","transport":"stdio","kind":"message","payload":{"jsonrpc":"2.0","id":1,"method":"initialize","params":{"protocolVersion":20251125}}}"#;
    assert!(declared_revisions(&events(document)).is_empty());
}

#[test]
fn declarations_are_deduplicated_and_ordered() {
    let document = format!(
        "{HANDSHAKE}\n{}",
        r#"{"seq":2,"direction":"client-to-server","transport":"streamable-http","kind":"message","payload":{"jsonrpc":"2.0","id":2,"method":"tools/list","params":{"_meta":{"io.modelcontextprotocol/protocolVersion":"2026-07-28"}}}}"#
    );
    assert_eq!(declared_revisions(&events(&document)), ["2025-11-25", "2026-07-28"]);
}

const STATELESS: &str = r#"{"seq":0,"direction":"client-to-server","transport":"stdio","kind":"message","payload":{"jsonrpc":"2.0","id":1,"method":"tools/list","params":{"_meta":{"io.modelcontextprotocol/protocolVersion":"2026-07-28"}}}}"#;

#[test]
fn select_judges_the_revision_the_trace_declares() {
    let selection = select(&builtin_revisions(), &events(STATELESS)).unwrap();
    assert_eq!(selection.revisions, [rev("2026-07-28")]);
    assert_eq!(selection.source, RevisionSource::Declared);
    let selection = select(&builtin_revisions(), &events(HANDSHAKE)).unwrap();
    assert_eq!(selection.revisions, [rev("2025-11-25")]);
}

#[test]
fn select_judges_every_supported_revision_a_session_touched() {
    let document = format!(
        "{HANDSHAKE}\n{}",
        STATELESS.replace("\"seq\":0", "\"seq\":2").replace("\"id\":1", "\"id\":2")
    );
    let selection = select(&builtin_revisions(), &events(&document)).unwrap();
    assert_eq!(selection.revisions, [rev("2025-11-25"), rev("2026-07-28")]);
    assert_eq!(selection.source, RevisionSource::Declared);
}

#[test]
fn select_defaults_to_the_newest_supported_revision_when_nothing_is_declared() {
    let document = r#"{"seq":0,"direction":"client-to-server","transport":"stdio","kind":"message","payload":{"jsonrpc":"2.0","id":1,"method":"tools/list"}}"#;
    let selection = select(&builtin_revisions(), &events(document)).unwrap();
    assert_eq!(selection.revisions, [rev("2026-07-28")]);
    assert_eq!(selection.source, RevisionSource::Default);
    let reversed = [rev("2026-07-28"), rev("2025-11-25")];
    assert_eq!(select(&reversed, &events(document)).unwrap().revisions, [rev("2026-07-28")]);
}

#[test]
fn select_refuses_a_trace_of_only_unsupported_revisions() {
    let document = STATELESS.replace("2026-07-28", "2027-03-01");
    let error = select(&builtin_revisions(), &events(&document)).unwrap_err();
    assert_eq!(error.declared, [rev("2027-03-01")]);
    assert_eq!(error.supported, builtin_revisions());
    let message = error.describe();
    assert!(message.contains("2027-03-01"), "{message}");
    assert!(message.contains("2025-11-25, 2026-07-28"), "{message}");
    assert!(select(&[], &events(STATELESS)).is_err());
}

#[test]
fn select_ignores_an_unsupported_declaration_beside_a_supported_one() {
    let document = format!(
        "{STATELESS}\n{}",
        STATELESS
            .replace("\"seq\":0", "\"seq\":1")
            .replace("\"id\":1", "\"id\":2")
            .replace("2026-07-28", "2027-03-01")
    );
    let selection = select(&builtin_revisions(), &events(&document)).unwrap();
    assert_eq!(selection.revisions, [rev("2026-07-28")]);
}

#[test]
fn select_does_not_count_a_refused_request() {
    let document = r#"{"seq":0,"direction":"client-to-server","transport":"stdio","kind":"message","payload":{"jsonrpc":"2.0","id":1,"method":"tools/list","params":{"_meta":{"io.modelcontextprotocol/protocolVersion":"1900-01-01"}}}}
{"seq":1,"direction":"server-to-client","transport":"stdio","kind":"message","payload":{"jsonrpc":"2.0","id":1,"error":{"code":-32022,"message":"Unsupported protocol version"}}}"#;
    let selection = select(&builtin_revisions(), &events(document)).unwrap();
    assert_eq!(selection.source, RevisionSource::Default);
}

#[test]
fn a_revision_renders_back_to_the_text_it_was_parsed_from() {
    assert_eq!(rev("2026-07-28").to_text(), "2026-07-28");
    assert_eq!(rev("0999-01-31").to_text(), "0999-01-31");
    assert!(ProtocolRevision::parse("2026-13-01").is_none());
    assert!(ProtocolRevision::parse("2026-07-32").is_none());
    assert!(ProtocolRevision::parse("2026-7-28").is_none());
}

#[test]
fn mismatch_any_fires_only_when_no_judged_revision_was_declared() {
    let document = events(STATELESS);
    assert!(mismatch_any(&[rev("2025-11-25"), rev("2026-07-28")], &document).is_none());
    assert_eq!(
        mismatch_any(&[rev("2025-11-25")], &document),
        Some(vec!["2026-07-28".to_owned()])
    );
    assert_eq!(RevisionSource::Default.describe(), "the trace declares none; newest supported");
}
