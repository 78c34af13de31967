use mcp_trace_validator::checks::find;
use mcp_trace_validator::context::TraceContext;
use mcp_trace_validator::json::{Json, Number};
use mcp_trace_validator::trace::{events_from_records, TraceEvent};

/// The `_meta` envelope a conforming `2026-07-28` request carries.
#[allow(dead_code)]
const META: &str = r#""_meta":{"io.modelcontextprotocol/protocolVersion":"2026-07-28","io.modelcontextprotocol/clientCapabilities":{}}"#;

/// The library's value for a parsed JSON value.
fn to_json(value: &serde_json::Value) -> Json {
    match value {
        serde_json::Value::Null => Json::Null,
        serde_json::Value::Bool(b) => Json::Bool(*b),
        serde_json::Value::Number(n) => {
            if let Some(u) = n.as_u64() {
                Json::Num(Number::Unsigned(u))
            } else if let Some(i) = n.as_i64() {
                Json::Num(Number::Negative(i))
            } else {
                Json::Num(Number::Decimal(n.to_string()))
            }
        }
        serde_json::Value::String(s) => Json::Str(s.clone()),
        serde_json::Value::Array(items) => Json::Array(items.iter().map(to_json).collect()),
        serde_json::Value::Object(members) => Json::Object(
            members.iter().map(|(k, v)| (k.clone(), to_json(v))).collect(),
        ),
    }
}

/// Parses a JSON Lines trace, panicking with the reason if it is malformed.
#[allow(dead_code)]
fn events(trace: &str) -> Vec<TraceEvent> {
    let records: Vec<Json> = trace
        .lines()
        .filter(|line| !line.trim().is_empty())
        .map(|line| to_json(&serde_json::from_str(line).expect("test trace line is JSON")))
        .collect();
    events_from_records(records).expect("test trace parses")
}

/// The details one check reports for a trace, in event order.
#[allow(dead_code)]
fn findings_for(check: &str, trace: &str) -> Vec<String> {
    let events = events(trace);
    let context = TraceContext::new(&events);
    find(check)
        .expect("check is registered")
        .run(&context)
        .findings
        .into_iter()
        .map(|finding| finding.detail)
        .collect()
}

/// One JSON Lines record over Streamable HTTP.
#[allow(dead_code)]
fn line(seq: u64, direction: &str, kind: &str, rest: &str) -> String {
    format!(
        r#"{{"seq":{seq},"direction":"{direction}","transport":"streamable-http","kind":"{kind}","payload":{rest}}}"#
    )
}

/// A client message event.
#[allow(dead_code)]
fn client(seq: u64, payload: &str) -> String {
    line(seq, "client-to-server", "message", payload)
}

/// A server message event.
#[allow(dead_code)]
fn server(seq: u64, payload: &str) -> String {
    line(seq, "server-to-client", "message", payload)
}

/// A client POST's HTTP event, carrying `headers` verbatim as a JSON object.
#[allow(dead_code)]
fn post(seq: u64, headers: &str) -> String {
    format!(
        r#"{{"seq":{seq},"direction":"client-to-server","transport":"streamable-http","kind":"http","headers":{headers}}}"#
    )
}

/// A server response's HTTP event with a status and no headers.
#[allow(dead_code)]
fn status(seq: u64, status: u16) -> String {
    format!(
        r#"{{"seq":{seq},"direction":"server-to-client","transport":"streamable-http","kind":"http","status":{status}}}"#
    )
}

/// A server error response for `id` carrying `code`.
#[allow(dead_code)]
fn error(seq: u64, id: &str, code: i64) -> String {
    server(
        seq,
        &format!(r#"{{"jsonrpc":"2.0","id":{id},"error":{{"code":{code},"message":"x"}}}}"#),
    )
}

/// Joins record lines into a trace document.
#[allow(dead_code)]
fn trace(lines: &[String]) -> String {
    lines.join("\n")
}

use mcp_trace_validator::checks::meta_key::validate_meta_key;

const INIT: &str = r#"{"seq":0,"direction":"client-to-server","transport":"stdio","kind":"message","payload":{"jsonrpc":"2.0","id":1,"method":"initialize","params":{"protocolVersion":"2025-11-25","capabilities":{},"clientInfo":{"name":"t","version":"0"}}}}"#;

/// The findings one check reports for a trace, with their seqs.
fn run_check(check_id: &str, trace: &str) -> Vec<mcp_trace_validator::report::Finding> {
    let events = events(trace);
    let context = TraceContext::new(&events);
    find(check_id).unwrap().run(&context).findings
}
#[test]
fn meta_key_grammar_table() {

    for valid in [
        "progressToken",
        "x",
        "n.a-me_0",
        "com.example/key",
        "com.example/",
        "a/b",
        "a1-b/n",
        "io.modelcontextprotocol/x",
    ] {
        assert!(
            validate_meta_key(valid).is_ok(),
            "{valid:?} should be valid"
        );
    }
    // Each rejection's *reason* feeds `finding.detail` verbatim, so the
    // table pins which rule fired — a defect routed to the wrong rule
    // (say, a bad label reported as a bad name) is a wrong diagnostic
    // even when the verdict is right.
    for (invalid, reason) in [
        ("1bad/x", "prefix label"), // label starts with a digit
        ("bad-/x", "prefix label"), // label ends with a hyphen
        ("a..b/x", "prefix label"), // empty interior label
        ("/x", "prefix label"),     // empty prefix label
        ("a_b/x", "prefix label"),  // underscore not allowed in labels
        ("a/-x", "begin and end"),  // name starts with a hyphen
        ("a/x.", "begin and end"),  // name ends with a dot
        ("a/x y", "characters outside"), // space in name
        ("a/b/c", "characters outside"), // slash in name
    ] {
        let error = validate_meta_key(invalid)
            .expect_err(&format!("{invalid:?} should be invalid"));
        assert!(
            error.contains(reason),
            "{invalid:?} should be rejected by the {reason:?} rule, got: {error}"
        );
    }
    // Documented edge: an empty name is allowed ("Unless empty…"), and a
    // bare empty key has no prefix either.
    assert!(validate_meta_key("").is_ok());
}

#[test]
fn meta_key_format_scopes_to_envelope_meta_only() {
    // params._meta violations are findings; identical spellings inside
    // user data (tool arguments) are not.
    let trace = format!(
        "{INIT}\n{}\n{}",
        r#"{"seq":1,"direction":"client-to-server","transport":"stdio","kind":"message","payload":{"jsonrpc":"2.0","id":2,"method":"ping","params":{"_meta":{"1bad./t":1}}}}"#,
        r#"{"seq":2,"direction":"client-to-server","transport":"stdio","kind":"message","payload":{"jsonrpc":"2.0","id":3,"method":"tools/call","params":{"name":"echo","arguments":{"_meta":{"1bad./t":1}}}}}"#
    );
    let findings = run_check("base.meta-key-format", &trace);
    assert_eq!(findings.len(), 1, "{findings:?}");
    assert!(findings[0].detail.contains("params._meta"), "{findings:?}");
    assert_eq!(findings[0].seq, Some(1));
}
