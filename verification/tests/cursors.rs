use mcp_trace_validator::checks::find;
use mcp_trace_validator::context::TraceContext;
use mcp_trace_validator::json::{Json, Number};
use mcp_trace_validator::trace::{events_from_records, TraceEvent};

/// The `_meta` envelope a conforming `2026-07-28` request carries.
#[allow(dead_code)]
const META: &str = r#""_meta":{"io.modelcontextprotocol/protocolVersion":"2026-07-28","io.modelcontextprotocol/clientCapabilities":{}}"#;

/// The library's value for a parsed JSON value.
fn to_json(value: &serde_json::Value) -> Json {
    match value {
        serde_json::Value::Null => Json::Null,
        serde_json::Value::Bool(b) => Json::Bool(*b),
        serde_json::Value::Number(n) => {
            if let Some(u) = n.as_u64() {
                Json::Num(Number::Unsigned(u))
            } else if let Some(i) = n.as_i64() {
                Json::Num(Number::Negative(i))
            } else {
                Json::Num(Number::Decimal(n.to_string()))
            }
        }
        serde_json::Value::String(s) => Json::Str(s.clone()),
        serde_json::Value::Array(items) => Json::Array(items.iter().map(to_json).collect()),
        serde_json::Value::Object(members) => Json::Object(
            members.iter().map(|(k, v)| (k.clone(), to_json(v))).collect(),
        ),
    }
}

/// Parses a JSON Lines trace, panicking with the reason if it is malformed.
#[allow(dead_code)]
fn events(trace: &str) -> Vec<TraceEvent> {
    let records: Vec<Json> = trace
        .lines()
        .filter(|line| !line.trim().is_empty())
        .map(|line| to_json(&serde_json::from_str(line).expect("test trace line is JSON")))
        .collect();
    events_from_records(records).expect("test trace parses")
}

/// The details one check reports for a trace, in event order.
#[allow(dead_code)]
fn findings_for(check: &str, trace: &str) -> Vec<String> {
    let events = events(trace);
    let context = TraceContext::new(&events);
    find(check)
        .expect("check is registered")
        .run(&context)
        .findings
        .into_iter()
        .map(|finding| finding.detail)
        .collect()
}

/// One JSON Lines record over Streamable HTTP.
#[allow(dead_code)]
fn line(seq: u64, direction: &str, kind: &str, rest: &str) -> String {
    format!(
        r#"{{"seq":{seq},"direction":"{direction}","transport":"streamable-http","kind":"{kind}","payload":{rest}}}"#
    )
}

/// A client message event.
#[allow(dead_code)]
fn client(seq: u64, payload: &str) -> String {
    line(seq, "client-to-server", "message", payload)
}

/// A server message event.
#[allow(dead_code)]
fn server(seq: u64, payload: &str) -> String {
    line(seq, "server-to-client", "message", payload)
}

/// A client POST's HTTP event, carrying `headers` verbatim as a JSON object.
#[allow(dead_code)]
fn post(seq: u64, headers: &str) -> String {
    format!(
        r#"{{"seq":{seq},"direction":"client-to-server","transport":"streamable-http","kind":"http","headers":{headers}}}"#
    )
}

/// A server response's HTTP event with a status and no headers.
#[allow(dead_code)]
fn status(seq: u64, status: u16) -> String {
    format!(
        r#"{{"seq":{seq},"direction":"server-to-client","transport":"streamable-http","kind":"http","status":{status}}}"#
    )
}

/// A server error response for `id` carrying `code`.
#[allow(dead_code)]
fn error(seq: u64, id: &str, code: i64) -> String {
    server(
        seq,
        &format!(r#"{{"jsonrpc":"2.0","id":{id},"error":{{"code":{code},"message":"x"}}}}"#),
    )
}

/// Joins record lines into a trace document.
#[allow(dead_code)]
fn trace(lines: &[String]) -> String {
    lines.join("\n")
}

const HANDSHAKE: &str = r#"{"seq":0,"direction":"client-to-server","transport":"stdio","kind":"message","payload":{"jsonrpc":"2.0","id":1,"method":"initialize","params":{"protocolVersion":"2025-11-25","capabilities":{},"clientInfo":{"name":"t","version":"0"}}}}
{"seq":1,"direction":"server-to-client","transport":"stdio","kind":"message","payload":{"jsonrpc":"2.0","id":1,"result":{"protocolVersion":"2025-11-25","capabilities":{"tools":{}},"serverInfo":{"name":"s","version":"0"}}}}
{"seq":2,"direction":"client-to-server","transport":"stdio","kind":"message","payload":{"jsonrpc":"2.0","method":"notifications/initialized"}}"#;

const INVALID_CURSOR: &str = "pagination.invalid-cursor-rejected";

/// A list request for `method`, presenting `cursor` when given.
fn list(seq: u64, id: u64, method: &str, cursor: Option<&str>) -> String {
    let params = cursor.map_or_else(String::new, |cursor| {
        format!(r#","params":{{"cursor":"{cursor}"}}"#)
    });
    format!(
        r#"{{"seq":{seq},"direction":"client-to-server","transport":"stdio","kind":"message","payload":{{"jsonrpc":"2.0","id":{id},"method":"{method}"{params}}}}}"#
    )
}

/// A page result, issuing `next` when given.
fn page(seq: u64, id: u64, next: Option<&str>) -> String {
    let cursor = next.map_or_else(String::new, |next| format!(r#","nextCursor":"{next}""#));
    format!(
        r#"{{"seq":{seq},"direction":"server-to-client","transport":"stdio","kind":"message","payload":{{"jsonrpc":"2.0","id":{id},"result":{{"tools":[]{cursor}}}}}}}"#
    )
}

/// An error answer carrying `code`.
fn rejection(seq: u64, id: u64, code: i64) -> String {
    format!(
        r#"{{"seq":{seq},"direction":"server-to-client","transport":"stdio","kind":"message","payload":{{"jsonrpc":"2.0","id":{id},"error":{{"code":{code},"message":"no"}}}}}}"#
    )
}

fn session(body: &[String]) -> String {
    format!("{HANDSHAKE}\n{}", body.join("\n"))
}

#[test]
fn utilities_an_unissued_cursor_answered_with_a_result_is_reported() {
    let trace = session(&[list(3, 2, "tools/list", Some("made-up")), page(4, 2, None)]);
    let findings = findings_for(INVALID_CURSOR, &trace);
    assert_eq!(findings.len(), 1, "{findings:?}");
    assert!(findings[0].contains("made-up"), "{findings:?}");
}

#[test]
fn utilities_rejecting_it_with_invalid_params_conforms() {
    let trace = session(&[
        list(3, 2, "tools/list", Some("made-up")),
        rejection(4, 2, -32602),
    ]);
    assert!(findings_for(INVALID_CURSOR, &trace).is_empty());
}

#[test]
fn utilities_some_other_error_is_not_the_required_rejection() {
    let trace = session(&[
        list(3, 2, "tools/list", Some("made-up")),
        rejection(4, 2, -32603),
    ]);
    let findings = findings_for(INVALID_CURSOR, &trace);
    assert_eq!(findings.len(), 1, "{findings:?}");
    assert!(findings[0].contains("-32603"), "{findings:?}");
}

#[test]
fn utilities_a_cursor_the_server_issued_is_valid() {
    let trace = session(&[
        list(3, 2, "tools/list", None),
        page(4, 2, Some("page2")),
        list(5, 3, "tools/list", Some("page2")),
        page(6, 3, None),
    ]);
    assert!(findings_for(INVALID_CURSOR, &trace).is_empty());
}

#[test]
fn utilities_a_cursor_issued_for_another_method_is_not_this_ones() {
    let trace = session(&[
        list(3, 2, "prompts/list", None),
        page(4, 2, Some("page2")),
        list(5, 3, "tools/list", Some("page2")),
        page(6, 3, None),
    ]);
    assert_eq!(findings_for(INVALID_CURSOR, &trace).len(), 1);
}

#[test]
fn utilities_a_cursor_used_before_it_was_issued_is_still_unissued() {
    // Order matters: the server cannot be excused by a cursor it handed
    // out afterwards.
    let trace = session(&[
        list(3, 2, "tools/list", Some("page2")),
        page(4, 2, Some("page2")),
    ]);
    assert_eq!(findings_for(INVALID_CURSOR, &trace).len(), 1);
}

#[test]
fn utilities_a_list_request_with_no_cursor_is_not_judged() {
    let trace = session(&[list(3, 2, "tools/list", None), page(4, 2, None)]);
    assert!(findings_for(INVALID_CURSOR, &trace).is_empty());
}

