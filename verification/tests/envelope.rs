use mcp_trace_validator::checks::find;
use mcp_trace_validator::context::TraceContext;
use mcp_trace_validator::json::{Json, Number};
use mcp_trace_validator::trace::{events_from_records, TraceEvent};

/// The `_meta` envelope a conforming `2026-07-28` request carries.
#[allow(dead_code)]
const META: &str = r#""_meta":{"io.modelcontextprotocol/protocolVersion":"2026-07-28","io.modelcontextprotocol/clientCapabilities":{}}"#;

/// The library's value for a parsed JSON value.
fn to_json(value: &serde_json::Value) -> Json {
    match value {
        serde_json::Value::Null => Json::Null,
        serde_json::Value::Bool(b) => Json::Bool(*b),
        serde_json::Value::Number(n) => {
            if let Some(u) = n.as_u64() {
                Json::Num(Number::Unsigned(u))
            } else if let Some(i) = n.as_i64() {
                Json::Num(Number::Negative(i))
            } else {
                Json::Num(Number::Decimal(n.to_string()))
            }
        }
        serde_json::Value::String(s) => Json::Str(s.clone()),
        serde_json::Value::Array(items) => Json::Array(items.iter().map(to_json).collect()),
        serde_json::Value::Object(members) => Json::Object(
            members.iter().map(|(k, v)| (k.clone(), to_json(v))).collect(),
        ),
    }
}

/// Parses a JSON Lines trace, panicking with the reason if it is malformed.
#[allow(dead_code)]
fn events(trace: &str) -> Vec<TraceEvent> {
    let records: Vec<Json> = trace
        .lines()
        .filter(|line| !line.trim().is_empty())
        .map(|line| to_json(&serde_json::from_str(line).expect("test trace line is JSON")))
        .collect();
    events_from_records(records).expect("test trace parses")
}

/// The details one check reports for a trace, in event order.
#[allow(dead_code)]
fn findings_for(check: &str, trace: &str) -> Vec<String> {
    let events = events(trace);
    let context = TraceContext::new(&events);
    find(check)
        .expect("check is registered")
        .run(&context)
        .findings
        .into_iter()
        .map(|finding| finding.detail)
        .collect()
}

/// One JSON Lines record over Streamable HTTP.
#[allow(dead_code)]
fn line(seq: u64, direction: &str, kind: &str, rest: &str) -> String {
    format!(
        r#"{{"seq":{seq},"direction":"{direction}","transport":"streamable-http","kind":"{kind}","payload":{rest}}}"#
    )
}

/// A client message event.
#[allow(dead_code)]
fn client(seq: u64, payload: &str) -> String {
    line(seq, "client-to-server", "message", payload)
}

/// A server message event.
#[allow(dead_code)]
fn server(seq: u64, payload: &str) -> String {
    line(seq, "server-to-client", "message", payload)
}

/// A client POST's HTTP event, carrying `headers` verbatim as a JSON object.
#[allow(dead_code)]
fn post(seq: u64, headers: &str) -> String {
    format!(
        r#"{{"seq":{seq},"direction":"client-to-server","transport":"streamable-http","kind":"http","headers":{headers}}}"#
    )
}

/// A server response's HTTP event with a status and no headers.
#[allow(dead_code)]
fn status(seq: u64, status: u16) -> String {
    format!(
        r#"{{"seq":{seq},"direction":"server-to-client","transport":"streamable-http","kind":"http","status":{status}}}"#
    )
}

/// A server error response for `id` carrying `code`.
#[allow(dead_code)]
fn error(seq: u64, id: &str, code: i64) -> String {
    server(
        seq,
        &format!(r#"{{"jsonrpc":"2.0","id":{id},"error":{{"code":{code},"message":"x"}}}}"#),
    )
}

/// Joins record lines into a trace document.
#[allow(dead_code)]
fn trace(lines: &[String]) -> String {
    lines.join("\n")
}

// Tests for the `2026-07-28` error-code partition.

/// What `check` reports for a session whose single error carries `code`.
fn for_code(check: &str, code: i64) -> Vec<String> {
    let document = trace(&[
        client(0, r#"{"jsonrpc":"2.0","id":1,"method":"ping"}"#),
        error(1, "1", code),
    ]);
    findings_for(check, &document)
}

/// Asserts exactly which of `codes` the check reports.
fn assert_reports(check: &str, reported: &[i64], ignored: &[i64]) {
    for code in reported {
        assert_eq!(
            for_code(check, *code).len(),
            1,
            "{check} should report {code}"
        );
    }
    for code in ignored {
        assert!(
            for_code(check, *code).is_empty(),
            "{check} should ignore {code}"
        );
    }
}

#[test]
fn the_legacy_sub_range_is_closed_at_both_ends() {
    assert_reports(
        "base.error-code-legacy-subrange",
        &[-32000, -32010, -32019],
        &[-32020, -31999, -32700, -1],
    );
}

#[test]
fn the_reserved_sub_range_reports_only_codes_the_specification_leaves_undefined() {
    assert_reports(
        "base.error-code-reserved-subrange",
        &[-32055, -32099, -32023],
        &[-32020, -32021, -32022, -32010, -32100, -32700],
    );
}

#[test]
fn withdrawn_codes_are_named_exactly() {
    assert_reports(
        "base.error-code-withdrawn",
        &[-32002, -32042],
        &[-32001, -32003, -32041, -32043, -32601],
    );
}

#[test]
fn the_application_range_check_fires_only_on_what_nothing_else_accounts_for() {
    assert_reports(
        "base.error-code-application-range",
        &[-32500, -32768, -32200],
        &[
            -32700, -32600, -32601, -32602, -32603,
            -32020, -32021, -32022, -32010, -32055,
            -1, 0, -31999, -40000,
        ],
    );
}

#[test]
fn a_non_integer_code_is_left_to_its_own_clause() {
    let document = trace(&[
        client(0, r#"{"jsonrpc":"2.0","id":1,"method":"ping"}"#),
        server(
            1,
            r#"{"jsonrpc":"2.0","id":1,"error":{"code":"-32010","message":"x"}}"#,
        ),
    ]);
    for check in [
        "base.error-code-legacy-subrange",
        "base.error-code-reserved-subrange",
        "base.error-code-withdrawn",
        "base.error-code-application-range",
    ] {
        assert!(findings_for(check, &document).is_empty(), "{check}");
    }
}
