use mcp_trace_validator::checks::find;
use mcp_trace_validator::context::TraceContext;
use mcp_trace_validator::json::{Json, Number};
use mcp_trace_validator::trace::{events_from_records, TraceEvent};

/// The `_meta` envelope a conforming `2026-07-28` request carries.
#[allow(dead_code)]
const META: &str = r#""_meta":{"io.modelcontextprotocol/protocolVersion":"2026-07-28","io.modelcontextprotocol/clientCapabilities":{}}"#;

/// The library's value for a parsed JSON value.
fn to_json(value: &serde_json::Value) -> Json {
    match value {
        serde_json::Value::Null => Json::Null,
        serde_json::Value::Bool(b) => Json::Bool(*b),
        serde_json::Value::Number(n) => {
            if let Some(u) = n.as_u64() {
                Json::Num(Number::Unsigned(u))
            } else if let Some(i) = n.as_i64() {
                Json::Num(Number::Negative(i))
            } else {
                Json::Num(Number::Decimal(n.to_string()))
            }
        }
        serde_json::Value::String(s) => Json::Str(s.clone()),
        serde_json::Value::Array(items) => Json::Array(items.iter().map(to_json).collect()),
        serde_json::Value::Object(members) => Json::Object(
            members.iter().map(|(k, v)| (k.clone(), to_json(v))).collect(),
        ),
    }
}

/// Parses a JSON Lines trace, panicking with the reason if it is malformed.
#[allow(dead_code)]
fn events(trace: &str) -> Vec<TraceEvent> {
    let records: Vec<Json> = trace
        .lines()
        .filter(|line| !line.trim().is_empty())
        .map(|line| to_json(&serde_json::from_str(line).expect("test trace line is JSON")))
        .collect();
    events_from_records(records).expect("test trace parses")
}

/// The details one check reports for a trace, in event order.
#[allow(dead_code)]
fn findings_for(check: &str, trace: &str) -> Vec<String> {
    let events = events(trace);
    let context = TraceContext::new(&events);
    find(check)
        .expect("check is registered")
        .run(&context)
        .findings
        .into_iter()
        .map(|finding| finding.detail)
        .collect()
}

/// One JSON Lines record over Streamable HTTP.
#[allow(dead_code)]
fn line(seq: u64, direction: &str, kind: &str, rest: &str) -> String {
    format!(
        r#"{{"seq":{seq},"direction":"{direction}","transport":"streamable-http","kind":"{kind}","payload":{rest}}}"#
    )
}

/// A client message event.
#[allow(dead_code)]
fn client(seq: u64, payload: &str) -> String {
    line(seq, "client-to-server", "message", payload)
}

/// A server message event.
#[allow(dead_code)]
fn server(seq: u64, payload: &str) -> String {
    line(seq, "server-to-client", "message", payload)
}

/// A client POST's HTTP event, carrying `headers` verbatim as a JSON object.
#[allow(dead_code)]
fn post(seq: u64, headers: &str) -> String {
    format!(
        r#"{{"seq":{seq},"direction":"client-to-server","transport":"streamable-http","kind":"http","headers":{headers}}}"#
    )
}

/// A server response's HTTP event with a status and no headers.
#[allow(dead_code)]
fn status(seq: u64, status: u16) -> String {
    format!(
        r#"{{"seq":{seq},"direction":"server-to-client","transport":"streamable-http","kind":"http","status":{status}}}"#
    )
}

/// A server error response for `id` carrying `code`.
#[allow(dead_code)]
fn error(seq: u64, id: &str, code: i64) -> String {
    server(
        seq,
        &format!(r#"{{"jsonrpc":"2.0","id":{id},"error":{{"code":{code},"message":"x"}}}}"#),
    )
}

/// Joins record lines into a trace document.
#[allow(dead_code)]
fn trace(lines: &[String]) -> String {
    lines.join("\n")
}

use mcp_trace_validator::context::Phase;

fn happy_path() -> Vec<TraceEvent> {
    events(
        r#"{"seq":0,"direction":"client-to-server","transport":"stdio","kind":"lifecycle","event":"transport-open"}
{"seq":1,"direction":"client-to-server","transport":"stdio","kind":"message","payload":{"jsonrpc":"2.0","id":1,"method":"initialize","params":{"protocolVersion":"2025-11-25","capabilities":{},"clientInfo":{"name":"t","version":"0"}}}}
{"seq":2,"direction":"server-to-client","transport":"stdio","kind":"message","payload":{"jsonrpc":"2.0","id":1,"result":{"protocolVersion":"2025-11-25","capabilities":{},"serverInfo":{"name":"s","version":"0"}}}}
{"seq":3,"direction":"client-to-server","transport":"stdio","kind":"message","payload":{"jsonrpc":"2.0","method":"notifications/initialized"}}
{"seq":4,"direction":"client-to-server","transport":"stdio","kind":"message","payload":{"jsonrpc":"2.0","id":2,"method":"tools/list"}}"#,
    )
}

#[test]
fn tracks_phases_through_initialization() {
    let events = happy_path();
    let context = TraceContext::new(&events);
    let phases: Vec<Phase> = context.messages().iter().map(|(_, _, phase)| *phase).collect();
    assert_eq!(
        phases,
        vec![
            Phase::BeforeInitialize,
            Phase::AwaitingInitializeResult,
            Phase::AfterInitializeSuccess,
            Phase::Ready,
        ]
    );
    assert_eq!(context.final_phase(), Phase::Ready);
}

#[test]
fn records_initialize_exchange() {
    let events = happy_path();
    let context = TraceContext::new(&events);
    let init = context.initialize();
    assert_eq!(init.request.unwrap().0, 1);
    assert!(init.request.unwrap().1.is_some());
    assert_eq!(init.result.unwrap().0, 2);
    assert_eq!(init.initialized, Some(3));
}

#[test]
fn initialize_error_blocks_ready() {
    let events = events(
        r#"{"seq":1,"direction":"client-to-server","transport":"stdio","kind":"message","payload":{"jsonrpc":"2.0","id":1,"method":"initialize","params":{}}}
{"seq":2,"direction":"server-to-client","transport":"stdio","kind":"message","payload":{"jsonrpc":"2.0","id":1,"error":{"code":-32602,"message":"Unsupported protocol version"}}}
{"seq":3,"direction":"client-to-server","transport":"stdio","kind":"message","payload":{"jsonrpc":"2.0","method":"notifications/initialized"}}"#,
    );
    let context = TraceContext::new(&events);
    assert_eq!(context.initialize().initialized, None);
    assert_eq!(context.final_phase(), Phase::AfterInitializeError);
}

#[test]
fn empty_trace_has_no_exchange() {
    let context = TraceContext::new(&[]);
    assert!(context.initialize().request.is_none());
    assert_eq!(context.final_phase(), Phase::BeforeInitialize);
    assert!(context.server_capabilities().is_none());
    assert!(context.client_capabilities().is_none());
}

#[test]
fn capability_accessors_read_their_declaration_surfaces() {
    let happy = happy_path();
    let context = TraceContext::new(&happy);
    assert_eq!(context.client_capabilities().map(|c| c.to_text()), Some("{}".to_owned()));
    assert_eq!(context.server_capabilities().map(|c| c.to_text()), Some("{}".to_owned()));

    let refused = events(
        r#"{"seq":0,"direction":"client-to-server","transport":"stdio","kind":"message","payload":{"jsonrpc":"2.0","id":1,"method":"initialize"}}
{"seq":1,"direction":"server-to-client","transport":"stdio","kind":"message","payload":{"jsonrpc":"2.0","id":1,"error":{"code":-32603,"message":"x"}}}"#,
    );
    let context = TraceContext::new(&refused);
    assert!(context.client_capabilities().is_none());
    assert!(context.server_capabilities().is_none());
}

#[test]
fn responses_with_unrelated_ids_do_not_complete_initialization() {
    for body in [
        r#"{"jsonrpc":"2.0","id":99,"result":{}}"#,
        r#"{"jsonrpc":"2.0","id":99,"error":{"code":-32600,"message":"x"}}"#,
    ] {
        let response = format!(
            r#"{{"seq":1,"direction":"server-to-client","transport":"stdio","kind":"message","payload":{body}}}"#
        );
        let doc = format!(
            "{}\n{response}",
            r#"{"seq":0,"direction":"client-to-server","transport":"stdio","kind":"message","payload":{"jsonrpc":"2.0","id":1,"method":"initialize","params":{}}}"#,
        );
        let events = events(&doc);
        let context = TraceContext::new(&events);
        assert!(context.initialize().result.is_none(), "{body}");
        assert_eq!(context.final_phase(), Phase::AwaitingInitializeResult, "{body}");
    }
}

#[test]
fn only_the_initialized_notification_makes_the_session_ready() {
    let events = events(
        r#"{"seq":0,"direction":"client-to-server","transport":"stdio","kind":"message","payload":{"jsonrpc":"2.0","id":1,"method":"initialize","params":{}}}
{"seq":1,"direction":"server-to-client","transport":"stdio","kind":"message","payload":{"jsonrpc":"2.0","id":1,"result":{}}}
{"seq":2,"direction":"client-to-server","transport":"stdio","kind":"message","payload":{"jsonrpc":"2.0","method":"notifications/cancelled"}}"#,
    );
    let context = TraceContext::new(&events);
    assert_eq!(context.initialize().initialized, None);
    assert_eq!(context.final_phase(), Phase::AfterInitializeSuccess);
}
