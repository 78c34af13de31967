use mcp_trace_validator::checks::find;
use mcp_trace_validator::context::TraceContext;
use mcp_trace_validator::json::{Json, Number};
use mcp_trace_validator::trace::{events_from_records, TraceEvent};

/// The `_meta` envelope a conforming `2026-07-28` request carries.
#[allow(dead_code)]
const META: &str = r#""_meta":{"io.modelcontextprotocol/protocolVersion":"2026-07-28","io.modelcontextprotocol/clientCapabilities":{}}"#;

/// The library's value for a parsed JSON value.
fn to_json(value: &serde_json::Value) -> Json {
    match value {
        serde_json::Value::Null => Json::Null,
        serde_json::Value::Bool(b) => Json::Bool(*b),
        serde_json::Value::Number(n) => {
            if let Some(u) = n.as_u64() {
                Json::Num(Number::Unsigned(u))
            } else if let Some(i) = n.as_i64() {
                Json::Num(Number::Negative(i))
            } else {
                Json::Num(Number::Decimal(n.to_string()))
            }
        }
        serde_json::Value::String(s) => Json::Str(s.clone()),
        serde_json::Value::Array(items) => Json::Array(items.iter().map(to_json).collect()),
        serde_json::Value::Object(members) => Json::Object(
            members.iter().map(|(k, v)| (k.clone(), to_json(v))).collect(),
        ),
    }
}

/// Parses a JSON Lines trace, panicking with the reason if it is malformed.
#[allow(dead_code)]
fn events(trace: &str) -> Vec<TraceEvent> {
    let records: Vec<Json> = trace
        .lines()
        .filter(|line| !line.trim().is_empty())
        .map(|line| to_json(&serde_json::from_str(line).expect("test trace line is JSON")))
        .collect();
    events_from_records(records).expect("test trace parses")
}

/// The details one check reports for a trace, in event order.
#[allow(dead_code)]
fn findings_for(check: &str, trace: &str) -> Vec<String> {
    let events = events(trace);
    let context = TraceContext::new(&events);
    find(check)
        .expect("check is registered")
        .run(&context)
        .findings
        .into_iter()
        .map(|finding| finding.detail)
        .collect()
}

/// One JSON Lines record over Streamable HTTP.
#[allow(dead_code)]
fn line(seq: u64, direction: &str, kind: &str, rest: &str) -> String {
    format!(
        r#"{{"seq":{seq},"direction":"{direction}","transport":"streamable-http","kind":"{kind}","payload":{rest}}}"#
    )
}

/// A client message event.
#[allow(dead_code)]
fn client(seq: u64, payload: &str) -> String {
    line(seq, "client-to-server", "message", payload)
}

/// A server message event.
#[allow(dead_code)]
fn server(seq: u64, payload: &str) -> String {
    line(seq, "server-to-client", "message", payload)
}

/// A client POST's HTTP event, carrying `headers` verbatim as a JSON object.
#[allow(dead_code)]
fn post(seq: u64, headers: &str) -> String {
    format!(
        r#"{{"seq":{seq},"direction":"client-to-server","transport":"streamable-http","kind":"http","headers":{headers}}}"#
    )
}

/// A server response's HTTP event with a status and no headers.
#[allow(dead_code)]
fn status(seq: u64, status: u16) -> String {
    format!(
        r#"{{"seq":{seq},"direction":"server-to-client","transport":"streamable-http","kind":"http","status":{status}}}"#
    )
}

/// A server error response for `id` carrying `code`.
#[allow(dead_code)]
fn error(seq: u64, id: &str, code: i64) -> String {
    server(
        seq,
        &format!(r#"{{"jsonrpc":"2.0","id":{id},"error":{{"code":{code},"message":"x"}}}}"#),
    )
}

/// Joins record lines into a trace document.
#[allow(dead_code)]
fn trace(lines: &[String]) -> String {
    lines.join("\n")
}

use mcp_trace_validator::context::draft::{DraftLifecycle, DraftPhase};

#[test]
fn operational_from_the_first_message_without_a_handshake() {
    let trace = events(
        r#"{"seq":0,"direction":"client-to-server","transport":"stdio","kind":"message","payload":{"jsonrpc":"2.0","id":1,"method":"tools/list"}}
{"seq":1,"direction":"server-to-client","transport":"stdio","kind":"message","payload":{"jsonrpc":"2.0","id":1,"result":{"tools":[]}}}"#,
    );
    let lifecycle = DraftLifecycle::new(&trace);
    assert_eq!(lifecycle.phases(), [DraftPhase::Active, DraftPhase::Active]);
    assert_eq!(lifecycle.final_phase(), DraftPhase::Active);
    assert!(lifecycle.discover().request.is_none());
    assert!(lifecycle.server_capabilities().is_none());
}

#[test]
fn discover_request_then_result_records_capabilities_and_returns_to_active() {
    let trace = events(
        r#"{"seq":0,"direction":"client-to-server","transport":"stdio","kind":"message","payload":{"jsonrpc":"2.0","id":1,"method":"server/discover","params":{"x":1}}}
{"seq":1,"direction":"server-to-client","transport":"stdio","kind":"message","payload":{"jsonrpc":"2.0","id":1,"result":{"capabilities":{"tools":{}},"serverInfo":{"name":"s","version":"0"}}}}"#,
    );
    let lifecycle = DraftLifecycle::new(&trace);
    assert_eq!(
        lifecycle.phases(),
        [DraftPhase::Active, DraftPhase::AwaitingDiscoverResult]
    );
    assert_eq!(lifecycle.final_phase(), DraftPhase::Active);
    assert_eq!(lifecycle.discover().request.unwrap().0, 0);
    assert!(lifecycle.discover().request.unwrap().1.is_some());
    assert_eq!(lifecycle.discover().result.unwrap().0, 1);
    assert!(lifecycle.discover().error.is_none());
    assert_eq!(
        lifecycle.server_capabilities().map(|c| c.to_text()),
        Some(r#"{"tools":{}}"#.to_owned())
    );
}

#[test]
fn discover_error_is_an_error_edge_back_to_active() {
    let trace = events(
        r#"{"seq":0,"direction":"client-to-server","transport":"stdio","kind":"message","payload":{"jsonrpc":"2.0","id":7,"method":"server/discover"}}
{"seq":1,"direction":"server-to-client","transport":"stdio","kind":"message","payload":{"jsonrpc":"2.0","id":7,"error":{"code":-32601,"message":"no discover"}}}"#,
    );
    let lifecycle = DraftLifecycle::new(&trace);
    assert_eq!(lifecycle.final_phase(), DraftPhase::Active);
    assert_eq!(lifecycle.discover().error, Some(1));
    assert!(lifecycle.discover().result.is_none());
    assert!(lifecycle.server_capabilities().is_none());
}

#[test]
fn a_response_with_an_unrelated_id_does_not_complete_discovery() {
    for body in [
        r#"{"jsonrpc":"2.0","id":99,"result":{}}"#,
        r#"{"jsonrpc":"2.0","id":99,"error":{"code":-32600,"message":"x"}}"#,
    ] {
        let response = format!(
            r#"{{"seq":1,"direction":"server-to-client","transport":"stdio","kind":"message","payload":{body}}}"#
        );
        let doc = format!(
            "{}\n{response}",
            r#"{"seq":0,"direction":"client-to-server","transport":"stdio","kind":"message","payload":{"jsonrpc":"2.0","id":1,"method":"server/discover"}}"#,
        );
        let trace = events(&doc);
        let lifecycle = DraftLifecycle::new(&trace);
        assert_eq!(lifecycle.final_phase(), DraftPhase::AwaitingDiscoverResult, "{body}");
        assert!(lifecycle.discover().result.is_none(), "{body}");
        assert!(lifecycle.discover().error.is_none(), "{body}");
    }
}

#[test]
fn removed_handshake_methods_are_not_lifecycle_transitions() {
    let trace = events(
        r#"{"seq":0,"direction":"client-to-server","transport":"stdio","kind":"message","payload":{"jsonrpc":"2.0","id":1,"method":"initialize","params":{}}}
{"seq":1,"direction":"server-to-client","transport":"stdio","kind":"message","payload":{"jsonrpc":"2.0","id":1,"result":{}}}
{"seq":2,"direction":"client-to-server","transport":"stdio","kind":"message","payload":{"jsonrpc":"2.0","method":"notifications/initialized"}}"#,
    );
    let lifecycle = DraftLifecycle::new(&trace);
    assert!(lifecycle.phases().iter().all(|p| *p == DraftPhase::Active));
    assert_eq!(lifecycle.final_phase(), DraftPhase::Active);
    assert!(lifecycle.discover().request.is_none());
}

#[test]
fn empty_trace_is_active_with_no_discovery() {
    let lifecycle = DraftLifecycle::new(&[]);
    assert!(lifecycle.phases().is_empty());
    assert_eq!(lifecycle.final_phase(), DraftPhase::Active);
    assert!(lifecycle.discover().request.is_none());
    assert!(lifecycle.server_capabilities().is_none());
}

#[test]
fn discovery_is_one_shot_a_second_request_while_active_is_ignored() {
    let trace = events(
        r#"{"seq":0,"direction":"client-to-server","transport":"stdio","kind":"message","payload":{"jsonrpc":"2.0","id":1,"method":"server/discover"}}
{"seq":1,"direction":"server-to-client","transport":"stdio","kind":"message","payload":{"jsonrpc":"2.0","id":1,"result":{"capabilities":{}}}}
{"seq":2,"direction":"client-to-server","transport":"stdio","kind":"message","payload":{"jsonrpc":"2.0","id":2,"method":"server/discover"}}"#,
    );
    let lifecycle = DraftLifecycle::new(&trace);
    assert_eq!(lifecycle.final_phase(), DraftPhase::Active);
    assert_eq!(lifecycle.discover().request.unwrap().0, 0);
    assert_eq!(lifecycle.discover().result.unwrap().0, 1);
}

#[test]
fn messages_yield_only_message_events_with_their_phase() {
    let trace = events(
        r#"{"seq":0,"direction":"client-to-server","transport":"stdio","kind":"message","payload":{"jsonrpc":"2.0","id":1,"method":"initialize","params":{}}}
{"seq":1,"direction":"server-to-client","transport":"streamable-http","kind":"http","status":200}
{"seq":2,"direction":"server-to-client","transport":"stdio","kind":"message","payload":{"jsonrpc":"2.0","id":1,"result":{}}}"#,
    );
    let context = TraceContext::new(&trace);
    let seqs: Vec<u64> = context.messages().iter().map(|(event, _, _)| event.seq).collect();
    assert_eq!(seqs, [0, 2]);
}
