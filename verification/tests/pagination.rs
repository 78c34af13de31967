use mcp_trace_validator::checks::find;
use mcp_trace_validator::context::TraceContext;
use mcp_trace_validator::json::{Json, Number};
use mcp_trace_validator::trace::{events_from_records, TraceEvent};

/// The `_meta` envelope a conforming `2026-07-28` request carries.
#[allow(dead_code)]
const META: &str = r#""_meta":{"io.modelcontextprotocol/protocolVersion":"2026-07-28","io.modelcontextprotocol/clientCapabilities":{}}"#;

/// The library's value for a parsed JSON value.
fn to_json(value: &serde_json::Value) -> Json {
    match value {
        serde_json::Value::Null => Json::Null,
        serde_json::Value::Bool(b) => Json::Bool(*b),
        serde_json::Value::Number(n) => {
            if let Some(u) = n.as_u64() {
                Json::Num(Number::Unsigned(u))
            } else if let Some(i) = n.as_i64() {
                Json::Num(Number::Negative(i))
            } else {
                Json::Num(Number::Decimal(n.to_string()))
            }
        }
        serde_json::Value::String(s) => Json::Str(s.clone()),
        serde_json::Value::Array(items) => Json::Array(items.iter().map(to_json).collect()),
        serde_json::Value::Object(members) => Json::Object(
            members.iter().map(|(k, v)| (k.clone(), to_json(v))).collect(),
        ),
    }
}

/// Parses a JSON Lines trace, panicking with the reason if it is malformed.
#[allow(dead_code)]
fn events(trace: &str) -> Vec<TraceEvent> {
    let records: Vec<Json> = trace
        .lines()
        .filter(|line| !line.trim().is_empty())
        .map(|line| to_json(&serde_json::from_str(line).expect("test trace line is JSON")))
        .collect();
    events_from_records(records).expect("test trace parses")
}

/// The details one check reports for a trace, in event order.
#[allow(dead_code)]
fn findings_for(check: &str, trace: &str) -> Vec<String> {
    let events = events(trace);
    let context = TraceContext::new(&events);
    find(check)
        .expect("check is registered")
        .run(&context)
        .findings
        .into_iter()
        .map(|finding| finding.detail)
        .collect()
}

/// One JSON Lines record over Streamable HTTP.
#[allow(dead_code)]
fn line(seq: u64, direction: &str, kind: &str, rest: &str) -> String {
    format!(
        r#"{{"seq":{seq},"direction":"{direction}","transport":"streamable-http","kind":"{kind}","payload":{rest}}}"#
    )
}

/// A client message event.
#[allow(dead_code)]
fn client(seq: u64, payload: &str) -> String {
    line(seq, "client-to-server", "message", payload)
}

/// A server message event.
#[allow(dead_code)]
fn server(seq: u64, payload: &str) -> String {
    line(seq, "server-to-client", "message", payload)
}

/// A client POST's HTTP event, carrying `headers` verbatim as a JSON object.
#[allow(dead_code)]
fn post(seq: u64, headers: &str) -> String {
    format!(
        r#"{{"seq":{seq},"direction":"client-to-server","transport":"streamable-http","kind":"http","headers":{headers}}}"#
    )
}

/// A server response's HTTP event with a status and no headers.
#[allow(dead_code)]
fn status(seq: u64, status: u16) -> String {
    format!(
        r#"{{"seq":{seq},"direction":"server-to-client","transport":"streamable-http","kind":"http","status":{status}}}"#
    )
}

/// A server error response for `id` carrying `code`.
#[allow(dead_code)]
fn error(seq: u64, id: &str, code: i64) -> String {
    server(
        seq,
        &format!(r#"{{"jsonrpc":"2.0","id":{id},"error":{{"code":{code},"message":"x"}}}}"#),
    )
}

/// Joins record lines into a trace document.
#[allow(dead_code)]
fn trace(lines: &[String]) -> String {
    lines.join("\n")
}

const CHECK: &str = "pagination.invalid-cursor-rejected";

/// A list request for `method`, presenting `cursor` when given.
fn list(seq: u64, id: u64, method: &str, cursor: Option<&str>) -> String {
    let params = cursor.map_or_else(String::new, |cursor| format!(r#","cursor":"{cursor}""#));
    client(
        seq,
        &format!(
            r#"{{"jsonrpc":"2.0","id":{id},"method":"{method}","params":{{"_meta":{{}}{params}}}}}"#
        ),
    )
}

/// A page result, issuing `next` when given.
fn page(seq: u64, id: u64, next: Option<&str>) -> String {
    let cursor = next.map_or_else(String::new, |next| format!(r#","nextCursor":"{next}""#));
    server(
        seq,
        &format!(
            r#"{{"jsonrpc":"2.0","id":{id},"result":{{"resultType":"complete","ttlMs":0{cursor}}}}}"#
        ),
    )
}

#[test]
fn tests_an_unissued_cursor_answered_with_a_result_is_reported() {
    let session = trace(&[list(0, 1, "tools/list", Some("made-up")), page(1, 1, None)]);
    let findings = findings_for(CHECK, &session);
    assert_eq!(findings.len(), 1, "{findings:?}");
    assert!(findings[0].contains("made-up"), "{findings:?}");
}

#[test]
fn tests_rejecting_it_with_invalid_params_conforms() {
    let session = trace(&[
        list(0, 1, "tools/list", Some("made-up")),
        server(
            1,
            r#"{"jsonrpc":"2.0","id":1,"error":{"code":-32602,"message":"invalid cursor"}}"#,
        ),
    ]);
    assert!(findings_for(CHECK, &session).is_empty());
}

#[test]
fn tests_some_other_error_is_not_the_required_rejection() {
    let session = trace(&[
        list(0, 1, "tools/list", Some("made-up")),
        server(
            1,
            r#"{"jsonrpc":"2.0","id":1,"error":{"code":-32603,"message":"boom"}}"#,
        ),
    ]);
    let findings = findings_for(CHECK, &session);
    assert_eq!(findings.len(), 1, "{findings:?}");
    assert!(findings[0].contains("-32603"), "{findings:?}");
}

#[test]
fn tests_a_cursor_the_server_issued_is_valid() {
    let session = trace(&[
        list(0, 1, "tools/list", None),
        page(1, 1, Some("page2")),
        list(2, 2, "tools/list", Some("page2")),
        page(3, 2, None),
    ]);
    assert!(findings_for(CHECK, &session).is_empty());
}

#[test]
fn tests_a_cursor_issued_for_another_method_is_not_this_ones() {
    let session = trace(&[
        list(0, 1, "prompts/list", None),
        page(1, 1, Some("page2")),
        list(2, 2, "tools/list", Some("page2")),
        page(3, 2, None),
    ]);
    assert_eq!(findings_for(CHECK, &session).len(), 1);
}

#[test]
fn tests_a_cursor_used_before_it_was_issued_is_still_unissued() {
    // Order matters: the server cannot be excused by a cursor it handed out
    // afterwards.
    let session = trace(&[
        list(0, 1, "tools/list", Some("page2")),
        page(1, 1, Some("page2")),
    ]);
    assert_eq!(findings_for(CHECK, &session).len(), 1);
}

#[test]
fn tests_a_list_request_with_no_cursor_is_not_judged() {
    let session = trace(&[list(0, 1, "tools/list", None), page(1, 1, None)]);
    assert!(findings_for(CHECK, &session).is_empty());
}
