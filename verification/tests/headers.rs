use mcp_trace_validator::checks::find;
use mcp_trace_validator::context::TraceContext;
use mcp_trace_validator::json::{Json, Number};
use mcp_trace_validator::trace::{events_from_records, TraceEvent};

/// The `_meta` envelope a conforming `2026-07-28` request carries.
#[allow(dead_code)]
const META: &str = r#""_meta":{"io.modelcontextprotocol/protocolVersion":"2026-07-28","io.modelcontextprotocol/clientCapabilities":{}}"#;

/// The library's value for a parsed JSON value.
fn to_json(value: &serde_json::Value) -> Json {
    match value {
        serde_json::Value::Null => Json::Null,
        serde_json::Value::Bool(b) => Json::Bool(*b),
        serde_json::Value::Number(n) => {
            if let Some(u) = n.as_u64() {
                Json::Num(Number::Unsigned(u))
            } else if let Some(i) = n.as_i64() {
                Json::Num(Number::Negative(i))
            } else {
                Json::Num(Number::Decimal(n.to_string()))
            }
        }
        serde_json::Value::String(s) => Json::Str(s.clone()),
        serde_json::Value::Array(items) => Json::Array(items.iter().map(to_json).collect()),
        serde_json::Value::Object(members) => Json::Object(
            members.iter().map(|(k, v)| (k.clone(), to_json(v))).collect(),
        ),
    }
}

/// Parses a JSON Lines trace, panicking with the reason if it is malformed.
#[allow(dead_code)]
fn events(trace: &str) -> Vec<TraceEvent> {
    let records: Vec<Json> = trace
        .lines()
        .filter(|line| !line.trim().is_empty())
        .map(|line| to_json(&serde_json::from_str(line).expect("test trace line is JSON")))
        .collect();
    events_from_records(records).expect("test trace parses")
}

/// The details one check reports for a trace, in event order.
#[allow(dead_code)]
fn findings_for(check: &str, trace: &str) -> Vec<String> {
    let events = events(trace);
    let context = TraceContext::new(&events);
    find(check)
        .expect("check is registered")
        .run(&context)
        .findings
        .into_iter()
        .map(|finding| finding.detail)
        .collect()
}

/// One JSON Lines record over Streamable HTTP.
#[allow(dead_code)]
fn line(seq: u64, direction: &str, kind: &str, rest: &str) -> String {
    format!(
        r#"{{"seq":{seq},"direction":"{direction}","transport":"streamable-http","kind":"{kind}","payload":{rest}}}"#
    )
}

/// A client message event.
#[allow(dead_code)]
fn client(seq: u64, payload: &str) -> String {
    line(seq, "client-to-server", "message", payload)
}

/// A server message event.
#[allow(dead_code)]
fn server(seq: u64, payload: &str) -> String {
    line(seq, "server-to-client", "message", payload)
}

/// A client POST's HTTP event, carrying `headers` verbatim as a JSON object.
#[allow(dead_code)]
fn post(seq: u64, headers: &str) -> String {
    format!(
        r#"{{"seq":{seq},"direction":"client-to-server","transport":"streamable-http","kind":"http","headers":{headers}}}"#
    )
}

/// A server response's HTTP event with a status and no headers.
#[allow(dead_code)]
fn status(seq: u64, status: u16) -> String {
    format!(
        r#"{{"seq":{seq},"direction":"server-to-client","transport":"streamable-http","kind":"http","status":{status}}}"#
    )
}

/// A server error response for `id` carrying `code`.
#[allow(dead_code)]
fn error(seq: u64, id: &str, code: i64) -> String {
    server(
        seq,
        &format!(r#"{{"jsonrpc":"2.0","id":{id},"error":{{"code":{code},"message":"x"}}}}"#),
    )
}

/// Joins record lines into a trace document.
#[allow(dead_code)]
fn trace(lines: &[String]) -> String {
    lines.join("\n")
}

/// A `resources/read` POST carrying `headers`, whose `params.uri` is `uri`.
fn read(headers: &str, uri: &str) -> String {
    trace(&[
        post(0, headers),
        client(
            1,
            &format!(
                r#"{{"jsonrpc":"2.0","id":1,"method":"resources/read","params":{{"uri":{uri},{META}}}}}"#
            ),
        ),
    ])
}

#[test]
fn the_encoding_rules_reach_mcp_name_and_mcp_param_only() {
    let check = "transport.header-value-encoding";

    let document = read(r#"{"mcp-method":"resources/read","mcp-name":"café"}"#, r#""café""#);
    assert_eq!(findings_for(check, &document).len(), 1);

    let document = read(
        r#"{"mcp-method":"resources/read","mcp-name":"a","mcp-param-region":" padded"}"#,
        r#""a""#,
    );
    assert_eq!(findings_for(check, &document).len(), 1);

    let document = read(
        r#"{"mcp-method":"resources/read","mcp-name":"a","x-vendor":"café","accept":" padded"}"#,
        r#""a""#,
    );
    assert!(findings_for(check, &document).is_empty());
}

#[test]
fn each_encoding_defect_is_claimed_by_exactly_one_check() {
    let encoding = "transport.header-value-encoding";
    let case = "transport.sentinel-marker-case";
    let pattern = "transport.sentinel-pattern-encoded";

    let document = read(r#"{"mcp-method":"resources/read","mcp-name":"café"}"#, r#""café""#);
    assert_eq!(findings_for(encoding, &document).len(), 1);
    assert!(findings_for(case, &document).is_empty());
    assert!(findings_for(pattern, &document).is_empty());

    let document = read(
        r#"{"mcp-method":"resources/read","mcp-name":"=?BASE64?Y2Fmw6k=?="}"#,
        r#""café""#,
    );
    assert!(findings_for(encoding, &document).is_empty());
    assert_eq!(findings_for(case, &document).len(), 1);
    assert!(findings_for(pattern, &document).is_empty());

    let document = read(
        r#"{"mcp-method":"resources/read","mcp-name":"=?base64?literal?="}"#,
        r#""=?base64?literal?=""#,
    );
    assert!(findings_for(encoding, &document).is_empty());
    assert!(findings_for(case, &document).is_empty());
    assert_eq!(findings_for(pattern, &document).len(), 1);

    let document = read(
        r#"{"mcp-method":"resources/read","mcp-name":"=?base64?café?="}"#,
        r#""café""#,
    );
    assert_eq!(findings_for(encoding, &document).len(), 1);

    let document = read(
        r#"{"mcp-method":"resources/read","mcp-name":"=?base64?Y2Fmw6k=?="}"#,
        r#""café""#,
    );
    for check in [encoding, case, pattern] {
        assert!(findings_for(check, &document).is_empty(), "{check}");
    }
}

#[test]
fn notification_posts_are_outside_every_header_clause() {
    let document = trace(&[
        post(0, r#"{"mcp-name":"café"}"#),
        client(1, r#"{"jsonrpc":"2.0","method":"notifications/cancelled","params":{}}"#),
    ]);
    for check in [
        "transport.protocol-version-header-present",
        "transport.request-metadata-headers",
        "transport.header-value-encoding",
        "transport.sentinel-marker-case",
    ] {
        assert!(findings_for(check, &document).is_empty(), "{check}");
    }
}
