use mcp_trace_validator::checks::find;
use mcp_trace_validator::context::TraceContext;
use mcp_trace_validator::json::{Json, Number};
use mcp_trace_validator::trace::{events_from_records, TraceEvent};

/// The `_meta` envelope a conforming `2026-07-28` request carries.
#[allow(dead_code)]
const META: &str = r#""_meta":{"io.modelcontextprotocol/protocolVersion":"2026-07-28","io.modelcontextprotocol/clientCapabilities":{}}"#;

/// The library's value for a parsed JSON value.
fn to_json(value: &serde_json::Value) -> Json {
    match value {
        serde_json::Value::Null => Json::Null,
        serde_json::Value::Bool(b) => Json::Bool(*b),
        serde_json::Value::Number(n) => {
            if let Some(u) = n.as_u64() {
                Json::Num(Number::Unsigned(u))
            } else if let Some(i) = n.as_i64() {
                Json::Num(Number::Negative(i))
            } else {
                Json::Num(Number::Decimal(n.to_string()))
            }
        }
        serde_json::Value::String(s) => Json::Str(s.clone()),
        serde_json::Value::Array(items) => Json::Array(items.iter().map(to_json).collect()),
        serde_json::Value::Object(members) => Json::Object(
            members.iter().map(|(k, v)| (k.clone(), to_json(v))).collect(),
        ),
    }
}

/// Parses a JSON Lines trace, panicking with the reason if it is malformed.
#[allow(dead_code)]
fn events(trace: &str) -> Vec<TraceEvent> {
    let records: Vec<Json> = trace
        .lines()
        .filter(|line| !line.trim().is_empty())
        .map(|line| to_json(&serde_json::from_str(line).expect("test trace line is JSON")))
        .collect();
    events_from_records(records).expect("test trace parses")
}

/// The details one check reports for a trace, in event order.
#[allow(dead_code)]
fn findings_for(check: &str, trace: &str) -> Vec<String> {
    let events = events(trace);
    let context = TraceContext::new(&events);
    find(check)
        .expect("check is registered")
        .run(&context)
        .findings
        .into_iter()
        .map(|finding| finding.detail)
        .collect()
}

/// One JSON Lines record over Streamable HTTP.
#[allow(dead_code)]
fn line(seq: u64, direction: &str, kind: &str, rest: &str) -> String {
    format!(
        r#"{{"seq":{seq},"direction":"{direction}","transport":"streamable-http","kind":"{kind}","payload":{rest}}}"#
    )
}

/// A client message event.
#[allow(dead_code)]
fn client(seq: u64, payload: &str) -> String {
    line(seq, "client-to-server", "message", payload)
}

/// A server message event.
#[allow(dead_code)]
fn server(seq: u64, payload: &str) -> String {
    line(seq, "server-to-client", "message", payload)
}

/// A client POST's HTTP event, carrying `headers` verbatim as a JSON object.
#[allow(dead_code)]
fn post(seq: u64, headers: &str) -> String {
    format!(
        r#"{{"seq":{seq},"direction":"client-to-server","transport":"streamable-http","kind":"http","headers":{headers}}}"#
    )
}

/// A server response's HTTP event with a status and no headers.
#[allow(dead_code)]
fn status(seq: u64, status: u16) -> String {
    format!(
        r#"{{"seq":{seq},"direction":"server-to-client","transport":"streamable-http","kind":"http","status":{status}}}"#
    )
}

/// A server error response for `id` carrying `code`.
#[allow(dead_code)]
fn error(seq: u64, id: &str, code: i64) -> String {
    server(
        seq,
        &format!(r#"{{"jsonrpc":"2.0","id":{id},"error":{{"code":{code},"message":"x"}}}}"#),
    )
}

/// Joins record lines into a trace document.
#[allow(dead_code)]
fn trace(lines: &[String]) -> String {
    lines.join("\n")
}

const INIT: &str = r#"{"seq":0,"direction":"client-to-server","transport":"stdio","kind":"message","payload":{"jsonrpc":"2.0","id":1,"method":"initialize","params":{"protocolVersion":"2025-11-25","capabilities":{},"clientInfo":{"name":"t","version":"0"}}}}"#;

/// A stdio message record.
fn stdio(seq: u64, direction: &str, payload: &str) -> String {
    format!(
        r#"{{"seq":{seq},"direction":"{direction}","transport":"stdio","kind":"message","payload":{payload}}}"#
    )
}

#[test]
fn result_response_with_null_id_gets_the_null_detail() {
    let trace = format!(
        "{INIT}\n{}",
        r#"{"seq":1,"direction":"server-to-client","transport":"stdio","kind":"message","payload":{"jsonrpc":"2.0","id":null,"result":{}}}"#
    );
    let findings = findings_for("base.result-id-matches", &trace);
    assert_eq!(findings.len(), 1);
    assert!(findings[0].contains("null id"), "{}", findings[0]);
}

#[test]
fn error_message_member_type_is_named_precisely() {
    let trace = format!(
        "{INIT}\n{}",
        r#"{"seq":1,"direction":"server-to-client","transport":"stdio","kind":"message","payload":{"jsonrpc":"2.0","id":1,"error":{"code":-32600,"message":-5}}}"#
    );
    let findings = findings_for("base.error-shape", &trace);
    assert_eq!(findings.len(), 1);
    assert!(findings[0].contains("is an integer, expected a string"), "{}", findings[0]);
}

#[test]
fn u64_only_request_ids_are_valid_integers() {
    let trace = format!(
        "{INIT}\n{}",
        r#"{"seq":1,"direction":"client-to-server","transport":"stdio","kind":"message","payload":{"jsonrpc":"2.0","id":18446744073709551615,"method":"tools/list"}}"#
    );
    assert!(findings_for("base.request-id-type", &trace).is_empty());
}

#[test]
fn request_ids_must_be_strings_or_integers_and_not_null() {
    let trace = trace(&[
        stdio(0, "client-to-server", r#"{"jsonrpc":"2.0","id":1.5,"method":"ping"}"#),
        stdio(1, "client-to-server", r#"{"jsonrpc":"2.0","id":null,"method":"ping"}"#),
        stdio(2, "client-to-server", r#"{"jsonrpc":"2.0","id":"a","method":"ping"}"#),
    ]);
    assert_eq!(
        findings_for("base.request-id-type", &trace),
        [
            r#"request "ping" carries a non-integer number as its id; the ID must be a string or an integer"#,
            r#"request "ping" carries null as its id; the ID must be a string or an integer"#,
        ]
    );
    assert_eq!(
        findings_for("base.request-id-not-null", &trace),
        [r#"request "ping" carries a null id, which MCP forbids"#]
    );
}

#[test]
fn a_party_reusing_its_own_id_is_reported_once_per_reuse() {
    let trace = trace(&[
        stdio(0, "client-to-server", r#"{"jsonrpc":"2.0","id":1,"method":"ping"}"#),
        stdio(1, "server-to-client", r#"{"jsonrpc":"2.0","id":1,"method":"ping"}"#),
        stdio(2, "client-to-server", r#"{"jsonrpc":"2.0","id":1,"method":"tools/list"}"#),
    ]);
    assert_eq!(
        findings_for("base.request-id-unique", &trace),
        [r#"request "tools/list" reuses id 1, already used by the same party at seq 0"#]
    );
}

#[test]
fn an_answer_to_nothing_outstanding_is_reported_and_an_answer_closes_its_request() {
    let trace = trace(&[
        stdio(0, "client-to-server", r#"{"jsonrpc":"2.0","id":1,"method":"ping"}"#),
        stdio(1, "server-to-client", r#"{"jsonrpc":"2.0","id":1,"result":{}}"#),
        stdio(2, "server-to-client", r#"{"jsonrpc":"2.0","id":1,"result":{}}"#),
        stdio(3, "server-to-client", r#"{"jsonrpc":"2.0","id":7,"error":{"code":-1,"message":"x"}}"#),
        stdio(4, "server-to-client", r#"{"jsonrpc":"2.0","id":null,"error":{"code":-1,"message":"x"}}"#),
    ]);
    assert_eq!(
        findings_for("base.result-id-matches", &trace),
        ["result response answers id 1, but that party has no outstanding request with that id (never sent, or already answered)"]
    );
    assert_eq!(
        findings_for("base.error-id-matches", &trace),
        ["error response answers id 7, but that party has no outstanding request with that id (never sent, or already answered)"]
    );
}

#[test]
fn a_notification_method_carrying_an_id_is_reported() {
    let trace = stdio(0, "client-to-server", r#"{"jsonrpc":"2.0","id":3,"method":"notifications/initialized"}"#);
    assert_eq!(
        findings_for("base.notification-no-id", &trace),
        [r#""notifications/initialized" is a notification method but the message carries an id; notifications must not include one"#]
    );
}

#[test]
fn error_objects_need_a_code_and_a_string_message() {
    let trace = trace(&[
        stdio(0, "server-to-client", r#"{"jsonrpc":"2.0","id":1,"error":"boom"}"#),
        stdio(1, "server-to-client", r#"{"jsonrpc":"2.0","id":1,"error":{}}"#),
        stdio(2, "server-to-client", r#"{"jsonrpc":"2.0","id":1,"error":{"code":"x","message":"m"}}"#),
    ]);
    assert_eq!(
        findings_for("base.error-shape", &trace),
        [
            "error member is a string, expected an object",
            "error object lacks a code member",
            "error object lacks a message member",
        ]
    );
    assert_eq!(
        findings_for("base.error-code-integer", &trace),
        ["error code is a string, expected an integer"]
    );
}

#[test]
fn shape_and_version_defects_are_reported() {
    let trace = trace(&[
        stdio(0, "server-to-client", r#"{"jsonrpc":"2.0","id":1}"#),
        stdio(1, "client-to-server", r#"{"jsonrpc":"1.0","id":2,"method":"ping"}"#),
        stdio(2, "client-to-server", r#"{"id":3,"method":"ping"}"#),
        stdio(3, "client-to-server", r#"{"jsonrpc":"2.0","id":4,"method":"ping"}"#),
    ]);
    assert_eq!(
        findings_for("base.result-field", &trace),
        ["response-shaped message (id present, no method) carries no result field"]
    );
    assert_eq!(
        findings_for("base.jsonrpc-version", &trace),
        [
            "message is not a JSON-RPC request, notification, or response: the message has no method, result, or error member",
            r#"jsonrpc member is "1.0", expected the string "2.0""#,
            r#"message lacks the jsonrpc member; JSON-RPC 2.0 requires "jsonrpc": "2.0""#,
        ]
    );
}
