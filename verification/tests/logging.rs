use mcp_trace_validator::checks::find;
use mcp_trace_validator::context::TraceContext;
use mcp_trace_validator::json::{Json, Number};
use mcp_trace_validator::trace::{events_from_records, TraceEvent};

/// The `_meta` envelope a conforming `2026-07-28` request carries.
#[allow(dead_code)]
const META: &str = r#""_meta":{"io.modelcontextprotocol/protocolVersion":"2026-07-28","io.modelcontextprotocol/clientCapabilities":{}}"#;

/// The library's value for a parsed JSON value.
fn to_json(value: &serde_json::Value) -> Json {
    match value {
        serde_json::Value::Null => Json::Null,
        serde_json::Value::Bool(b) => Json::Bool(*b),
        serde_json::Value::Number(n) => {
            if let Some(u) = n.as_u64() {
                Json::Num(Number::Unsigned(u))
            } else if let Some(i) = n.as_i64() {
                Json::Num(Number::Negative(i))
            } else {
                Json::Num(Number::Decimal(n.to_string()))
            }
        }
        serde_json::Value::String(s) => Json::Str(s.clone()),
        serde_json::Value::Array(items) => Json::Array(items.iter().map(to_json).collect()),
        serde_json::Value::Object(members) => Json::Object(
            members.iter().map(|(k, v)| (k.clone(), to_json(v))).collect(),
        ),
    }
}

/// Parses a JSON Lines trace, panicking with the reason if it is malformed.
#[allow(dead_code)]
fn events(trace: &str) -> Vec<TraceEvent> {
    let records: Vec<Json> = trace
        .lines()
        .filter(|line| !line.trim().is_empty())
        .map(|line| to_json(&serde_json::from_str(line).expect("test trace line is JSON")))
        .collect();
    events_from_records(records).expect("test trace parses")
}

/// The details one check reports for a trace, in event order.
#[allow(dead_code)]
fn findings_for(check: &str, trace: &str) -> Vec<String> {
    let events = events(trace);
    let context = TraceContext::new(&events);
    find(check)
        .expect("check is registered")
        .run(&context)
        .findings
        .into_iter()
        .map(|finding| finding.detail)
        .collect()
}

/// One JSON Lines record over Streamable HTTP.
#[allow(dead_code)]
fn line(seq: u64, direction: &str, kind: &str, rest: &str) -> String {
    format!(
        r#"{{"seq":{seq},"direction":"{direction}","transport":"streamable-http","kind":"{kind}","payload":{rest}}}"#
    )
}

/// A client message event.
#[allow(dead_code)]
fn client(seq: u64, payload: &str) -> String {
    line(seq, "client-to-server", "message", payload)
}

/// A server message event.
#[allow(dead_code)]
fn server(seq: u64, payload: &str) -> String {
    line(seq, "server-to-client", "message", payload)
}

/// A client POST's HTTP event, carrying `headers` verbatim as a JSON object.
#[allow(dead_code)]
fn post(seq: u64, headers: &str) -> String {
    format!(
        r#"{{"seq":{seq},"direction":"client-to-server","transport":"streamable-http","kind":"http","headers":{headers}}}"#
    )
}

/// A server response's HTTP event with a status and no headers.
#[allow(dead_code)]
fn status(seq: u64, status: u16) -> String {
    format!(
        r#"{{"seq":{seq},"direction":"server-to-client","transport":"streamable-http","kind":"http","status":{status}}}"#
    )
}

/// A server error response for `id` carrying `code`.
#[allow(dead_code)]
fn error(seq: u64, id: &str, code: i64) -> String {
    server(
        seq,
        &format!(r#"{{"jsonrpc":"2.0","id":{id},"error":{{"code":{code},"message":"x"}}}}"#),
    )
}

/// Joins record lines into a trace document.
#[allow(dead_code)]
fn trace(lines: &[String]) -> String {
    lines.join("\n")
}

const REQUESTED: &str = "logging.level-requested";
const NOT_ON_SUB: &str = "logging.not-on-subscription";
const INVALID: &str = "logging.invalid-level-rejected";

/// A client request whose `_meta` sets `level`, or none when `level` is empty.
fn request(seq: u64, id: u64, level: &str) -> String {
    let meta = if level.is_empty() {
        String::new()
    } else {
        format!(r#","io.modelcontextprotocol/logLevel":{level}"#)
    };
    client(
        seq,
        &format!(
            r#"{{"jsonrpc":"2.0","id":{id},"method":"tools/call","params":{{"_meta":{{"io.modelcontextprotocol/protocolVersion":"2026-07-28"{meta}}}}}}}"#
        ),
    )
}

/// A `notifications/message`, optionally tagged with a subscription id.
fn log(seq: u64, subscription: Option<u64>) -> String {
    let tag = subscription
        .map(|id| format!(r#","_meta":{{"io.modelcontextprotocol/subscriptionId":{id}}}"#))
        .unwrap_or_default();
    server(
        seq,
        &format!(
            r#"{{"jsonrpc":"2.0","method":"notifications/message","params":{{"level":"info","data":"x"{tag}}}}}"#
        ),
    )
}

#[test]
fn a_log_with_no_request_asking_for_one_is_reported() {
    let session = trace(&[request(0, 1, ""), log(1, None)]);
    let findings = findings_for(REQUESTED, &session);
    assert_eq!(findings.len(), 1, "{findings:?}");
}

#[test]
fn a_session_that_asked_for_logs_may_receive_them() {
    let session = trace(&[request(0, 1, r#""info""#), log(1, None)]);
    assert!(findings_for(REQUESTED, &session).is_empty());
}

#[test]
fn a_session_with_no_logs_at_all_is_not_reported() {
    let session = trace(&[request(0, 1, "")]);
    assert!(findings_for(REQUESTED, &session).is_empty());
    assert!(findings_for(NOT_ON_SUB, &session).is_empty());
}

#[test]
fn a_log_tagged_with_a_subscription_is_off_its_own_stream() {
    let session = trace(&[request(0, 1, r#""info""#), log(1, Some(7))]);
    let findings = findings_for(NOT_ON_SUB, &session);
    assert_eq!(findings.len(), 1, "{findings:?}");
    assert!(findings[0].contains("request-scoped"), "{findings:?}");

    let untagged = trace(&[request(0, 1, r#""info""#), log(1, None)]);
    assert!(findings_for(NOT_ON_SUB, &untagged).is_empty());
}

#[test]
fn an_unrecognized_level_must_draw_invalid_params() {
    let answered = |level: &str, answer: &str| {
        trace(&[
            request(0, 1, level),
            server(1, &format!(r#"{{"jsonrpc":"2.0","id":1,{answer}}}"#)),
        ])
    };
    let rejected = r#""error":{"code":-32602,"message":"bad level"}"#;
    let served = r#""result":{"resultType":"complete"}"#;

    for level in [r#""verbose""#, r#""INFO""#, "5", "null"] {
        let findings = findings_for(INVALID, &answered(level, served));
        assert_eq!(findings.len(), 1, "level {level}: {findings:?}");
    }
    assert!(findings_for(INVALID, &answered(r#""verbose""#, rejected)).is_empty());

    for level in [
        "debug", "info", "notice", "warning", "error", "critical", "alert", "emergency",
    ] {
        let session = answered(&format!(r#""{level}""#), served);
        assert!(findings_for(INVALID, &session).is_empty(), "level {level}");
    }
}

#[test]
fn a_request_that_sets_no_level_is_not_judged_for_its_validity() {
    let session = trace(&[
        request(0, 1, ""),
        server(1, r#"{"jsonrpc":"2.0","id":1,"result":{"resultType":"complete"}}"#),
    ]);
    assert!(findings_for(INVALID, &session).is_empty());
}

#[test]
fn an_invalid_level_answer_is_named_in_the_detail() {
    let session = trace(&[
        request(0, 1, r#""verbose""#),
        server(1, r#"{"jsonrpc":"2.0","id":1,"error":{"code":-32600,"message":"x"}}"#),
    ]);
    let findings = findings_for(INVALID, &session);
    assert_eq!(
        findings,
        vec![r#"the request declared log level "verbose", which is not one of the eight RFC 5424 levels, and drew error -32600 rather than -32602"#.to_owned()]
    );
}
