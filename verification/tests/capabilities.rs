use mcp_trace_validator::checks::find;
use mcp_trace_validator::context::TraceContext;
use mcp_trace_validator::json::{Json, Number};
use mcp_trace_validator::trace::{events_from_records, TraceEvent};

/// The `_meta` envelope a conforming `2026-07-28` request carries.
#[allow(dead_code)]
const META: &str = r#""_meta":{"io.modelcontextprotocol/protocolVersion":"2026-07-28","io.modelcontextprotocol/clientCapabilities":{}}"#;

/// The library's value for a parsed JSON value.
fn to_json(value: &serde_json::Value) -> Json {
    match value {
        serde_json::Value::Null => Json::Null,
        serde_json::Value::Bool(b) => Json::Bool(*b),
        serde_json::Value::Number(n) => {
            if let Some(u) = n.as_u64() {
                Json::Num(Number::Unsigned(u))
            } else if let Some(i) = n.as_i64() {
                Json::Num(Number::Negative(i))
            } else {
                Json::Num(Number::Decimal(n.to_string()))
            }
        }
        serde_json::Value::String(s) => Json::Str(s.clone()),
        serde_json::Value::Array(items) => Json::Array(items.iter().map(to_json).collect()),
        serde_json::Value::Object(members) => Json::Object(
            members.iter().map(|(k, v)| (k.clone(), to_json(v))).collect(),
        ),
    }
}

/// Parses a JSON Lines trace, panicking with the reason if it is malformed.
#[allow(dead_code)]
fn events(trace: &str) -> Vec<TraceEvent> {
    let records: Vec<Json> = trace
        .lines()
        .filter(|line| !line.trim().is_empty())
        .map(|line| to_json(&serde_json::from_str(line).expect("test trace line is JSON")))
        .collect();
    events_from_records(records).expect("test trace parses")
}

/// The details one check reports for a trace, in event order.
#[allow(dead_code)]
fn findings_for(check: &str, trace: &str) -> Vec<String> {
    let events = events(trace);
    let context = TraceContext::new(&events);
    find(check)
        .expect("check is registered")
        .run(&context)
        .findings
        .into_iter()
        .map(|finding| finding.detail)
        .collect()
}

/// One JSON Lines record over Streamable HTTP.
#[allow(dead_code)]
fn line(seq: u64, direction: &str, kind: &str, rest: &str) -> String {
    format!(
        r#"{{"seq":{seq},"direction":"{direction}","transport":"streamable-http","kind":"{kind}","payload":{rest}}}"#
    )
}

/// A client message event.
#[allow(dead_code)]
fn client(seq: u64, payload: &str) -> String {
    line(seq, "client-to-server", "message", payload)
}

/// A server message event.
#[allow(dead_code)]
fn server(seq: u64, payload: &str) -> String {
    line(seq, "server-to-client", "message", payload)
}

/// A client POST's HTTP event, carrying `headers` verbatim as a JSON object.
#[allow(dead_code)]
fn post(seq: u64, headers: &str) -> String {
    format!(
        r#"{{"seq":{seq},"direction":"client-to-server","transport":"streamable-http","kind":"http","headers":{headers}}}"#
    )
}

/// A server response's HTTP event with a status and no headers.
#[allow(dead_code)]
fn status(seq: u64, status: u16) -> String {
    format!(
        r#"{{"seq":{seq},"direction":"server-to-client","transport":"streamable-http","kind":"http","status":{status}}}"#
    )
}

/// A server error response for `id` carrying `code`.
#[allow(dead_code)]
fn error(seq: u64, id: &str, code: i64) -> String {
    server(
        seq,
        &format!(r#"{{"jsonrpc":"2.0","id":{id},"error":{{"code":{code},"message":"x"}}}}"#),
    )
}

/// Joins record lines into a trace document.
#[allow(dead_code)]
fn trace(lines: &[String]) -> String {
    lines.join("\n")
}

const COMPLETIONS: &str = "capabilities.completions-declared";
const LOGGING: &str = "capabilities.logging-declared";

/// A `server/discover` exchange declaring `capabilities`.
fn discovered(capabilities: &str) -> Vec<String> {
    vec![
        client(0, r#"{"jsonrpc":"2.0","id":90,"method":"server/discover","params":{"_meta":{}}}"#),
        server(
            1,
            &format!(
                r#"{{"jsonrpc":"2.0","id":90,"result":{{"resultType":"complete","ttlMs":0,"capabilities":{capabilities}}}}}"#
            ),
        ),
    ]
}

/// A client request for `method`, answered with a bare `complete` result.
fn served(seq: u64, method: &str) -> Vec<String> {
    vec![
        client(
            seq,
            &format!(r#"{{"jsonrpc":"2.0","id":{seq},"method":"{method}","params":{{"_meta":{{}}}}}}"#),
        ),
        server(
            seq + 1,
            &format!(r#"{{"jsonrpc":"2.0","id":{seq},"result":{{"resultType":"complete"}}}}"#),
        ),
    ]
}

/// A server log notification.
fn logged(seq: u64) -> String {
    server(
        seq,
        r#"{"jsonrpc":"2.0","method":"notifications/message","params":{"level":"info","data":"x"}}"#,
    )
}

#[test]
fn a_session_that_never_probed_is_not_judged() {
    let session = trace(&served(0, "tools/call"));
    for check in [COMPLETIONS, LOGGING] {
        assert!(findings_for(check, &session).is_empty(), "{check} judged a session with no discovery");
    }
}

#[test]
fn logging_is_judged_by_the_notification_it_emits() {
    let mut undeclared = discovered("{}");
    undeclared.push(logged(2));
    assert_eq!(findings_for(LOGGING, &trace(&undeclared)).len(), 1);

    let mut declared = discovered(r#"{"logging":{}}"#);
    declared.push(logged(2));
    assert!(findings_for(LOGGING, &trace(&declared)).is_empty());
}

#[test]
fn an_answered_feature_the_discovery_withheld_is_reported() {
    let mut session = discovered(r#"{"tools":false}"#);
    session.extend(served(10, "tools/call"));
    assert_eq!(
        findings_for("capabilities.tools-declared", &trace(&session)),
        vec!["server answered `tools/call` while its `server/discover` result declared no `tools` capability".to_owned()]
    );
    let mut declared = discovered(r#"{"tools":{}}"#);
    declared.extend(served(10, "tools/call"));
    assert!(findings_for("capabilities.tools-declared", &trace(&declared)).is_empty());
}

#[test]
fn a_declared_list_refused_as_unimplemented_is_reported() {
    let mut session = discovered(r#"{"prompts":{}}"#);
    session.push(client(10, r#"{"jsonrpc":"2.0","id":10,"method":"prompts/list","params":{"_meta":{}}}"#));
    session.push(error(11, "10", -32601));
    assert_eq!(findings_for("capabilities.prompts-list-implemented", &trace(&session)).len(), 1);
}

#[test]
fn an_embedded_resource_needs_the_resources_capability() {
    let mut session = discovered("{}");
    session.push(client(10, r#"{"jsonrpc":"2.0","id":10,"method":"tools/call","params":{"name":"t"}}"#));
    session.push(server(
        11,
        r#"{"jsonrpc":"2.0","id":10,"result":{"content":[{"type":"text","text":"x"},{"type":"resource","resource":{"uri":"file:///a","text":"x"}}]}}"#,
    ));
    assert_eq!(findings_for("capabilities.embedded-resource-declared", &trace(&session)).len(), 1);
}
