use mcp_trace_validator::checks::find;
use mcp_trace_validator::context::TraceContext;
use mcp_trace_validator::json::{Json, Number};
use mcp_trace_validator::trace::{events_from_records, TraceEvent};

/// The `_meta` envelope a conforming `2026-07-28` request carries.
#[allow(dead_code)]
const META: &str = r#""_meta":{"io.modelcontextprotocol/protocolVersion":"2026-07-28","io.modelcontextprotocol/clientCapabilities":{}}"#;

/// The library's value for a parsed JSON value.
fn to_json(value: &serde_json::Value) -> Json {
    match value {
        serde_json::Value::Null => Json::Null,
        serde_json::Value::Bool(b) => Json::Bool(*b),
        serde_json::Value::Number(n) => {
            if let Some(u) = n.as_u64() {
                Json::Num(Number::Unsigned(u))
            } else if let Some(i) = n.as_i64() {
                Json::Num(Number::Negative(i))
            } else {
                Json::Num(Number::Decimal(n.to_string()))
            }
        }
        serde_json::Value::String(s) => Json::Str(s.clone()),
        serde_json::Value::Array(items) => Json::Array(items.iter().map(to_json).collect()),
        serde_json::Value::Object(members) => Json::Object(
            members.iter().map(|(k, v)| (k.clone(), to_json(v))).collect(),
        ),
    }
}

/// Parses a JSON Lines trace, panicking with the reason if it is malformed.
#[allow(dead_code)]
fn events(trace: &str) -> Vec<TraceEvent> {
    let records: Vec<Json> = trace
        .lines()
        .filter(|line| !line.trim().is_empty())
        .map(|line| to_json(&serde_json::from_str(line).expect("test trace line is JSON")))
        .collect();
    events_from_records(records).expect("test trace parses")
}

/// The details one check reports for a trace, in event order.
#[allow(dead_code)]
fn findings_for(check: &str, trace: &str) -> Vec<String> {
    let events = events(trace);
    let context = TraceContext::new(&events);
    find(check)
        .expect("check is registered")
        .run(&context)
        .findings
        .into_iter()
        .map(|finding| finding.detail)
        .collect()
}

/// One JSON Lines record over Streamable HTTP.
#[allow(dead_code)]
fn line(seq: u64, direction: &str, kind: &str, rest: &str) -> String {
    format!(
        r#"{{"seq":{seq},"direction":"{direction}","transport":"streamable-http","kind":"{kind}","payload":{rest}}}"#
    )
}

/// A client message event.
#[allow(dead_code)]
fn client(seq: u64, payload: &str) -> String {
    line(seq, "client-to-server", "message", payload)
}

/// A server message event.
#[allow(dead_code)]
fn server(seq: u64, payload: &str) -> String {
    line(seq, "server-to-client", "message", payload)
}

/// A client POST's HTTP event, carrying `headers` verbatim as a JSON object.
#[allow(dead_code)]
fn post(seq: u64, headers: &str) -> String {
    format!(
        r#"{{"seq":{seq},"direction":"client-to-server","transport":"streamable-http","kind":"http","headers":{headers}}}"#
    )
}

/// A server response's HTTP event with a status and no headers.
#[allow(dead_code)]
fn status(seq: u64, status: u16) -> String {
    format!(
        r#"{{"seq":{seq},"direction":"server-to-client","transport":"streamable-http","kind":"http","status":{status}}}"#
    )
}

/// A server error response for `id` carrying `code`.
#[allow(dead_code)]
fn error(seq: u64, id: &str, code: i64) -> String {
    server(
        seq,
        &format!(r#"{{"jsonrpc":"2.0","id":{id},"error":{{"code":{code},"message":"x"}}}}"#),
    )
}

/// Joins record lines into a trace document.
#[allow(dead_code)]
fn trace(lines: &[String]) -> String {
    lines.join("\n")
}

use mcp_trace_validator::checks::transport::{
    compare, header_safe, header_text, mirrors, posts, sentinel_payload, Match,
};

/// The library's value for a JSON literal.
fn value(text: &str) -> Json {
    to_json(&serde_json::from_str(text).expect("test value is JSON"))
}

#[test]
fn header_safety_is_visible_ascii_with_no_edge_whitespace() {
    for safe in ["us-west1", "a b", "tabbed\tinside", "", "~", "!"] {
        assert!(header_safe(safe), "{safe:?} should be carried plainly");
    }
    for unsafe_value in [
        " padded",
        "padded ",
        "\tpadded",
        "line1\nline2",
        "caf\u{e9}",
        "bell\u{7}here",
        "del\u{7f}",
    ] {
        assert!(!header_safe(unsafe_value), "{unsafe_value:?} needs the sentinel");
    }
}

#[test]
fn the_sentinel_is_recognised_only_when_spelled_exactly() {
    assert_eq!(sentinel_payload("=?base64?YWJj?="), Some("YWJj"));
    assert_eq!(sentinel_payload("=?base64??="), Some(""));
    assert_eq!(sentinel_payload("=?BASE64?YWJj?="), None);
    assert_eq!(sentinel_payload("=?base64?YWJj"), None);
    assert_eq!(sentinel_payload("=?base64?="), None);
    assert_eq!(sentinel_payload("plain"), None);
}

#[test]
fn a_value_is_rendered_into_a_header_by_its_json_type() {
    assert_eq!(header_text(&value(r#""us-west1""#)), Some("us-west1".to_owned()));
    assert_eq!(header_text(&value("true")), Some("true".to_owned()));
    assert_eq!(header_text(&value("false")), Some("false".to_owned()));
    assert_eq!(header_text(&value("42")), Some("42".to_owned()));
    assert_eq!(header_text(&value("-7")), Some("-7".to_owned()));
    assert_eq!(
        header_text(&Json::Num(Number::Unsigned(u64::from(u32::MAX) * 8))),
        Some("34359738360".to_owned())
    );
    assert_eq!(header_text(&Json::Num(Number::Decimal("1.5".to_owned()))), None);
    assert_eq!(header_text(&value("null")), None);
    assert_eq!(header_text(&value(r#"["a"]"#)), None);
    assert_eq!(header_text(&value(r#"{"a":1}"#)), None);
}

#[test]
fn comparison_decodes_the_sentinel_before_judging() {
    assert_eq!(compare("us-west1", "us-west1"), Match::Carried);
    assert_eq!(compare("=?base64?dXMtd2VzdDE=?=", "us-west1"), Match::Carried);
    assert_eq!(compare("=?base64?dXMtZWFzdDE=?=", "us-west1"), Match::Mismatch);
    assert_eq!(compare("us-east1", "us-west1"), Match::Mismatch);
    assert_eq!(
        compare("=?base64?literal?=", "=?base64?literal?="),
        Match::UnencodedSentinel
    );
    assert_eq!(
        compare("=?base64?PT9iYXNlNjQ/bGl0ZXJhbD89?=", "=?base64?literal?="),
        Match::Carried
    );
}

/// A POST framing `payload`, plus a stdio POST and a server `http` event that
/// must both be ignored.
fn mixed_transports(payload: &str) -> String {
    trace(&[
        r#"{"seq":0,"direction":"server-to-client","transport":"streamable-http","kind":"http","headers":{"content-type":"application/json"}}"#.to_owned(),
        r#"{"seq":1,"direction":"client-to-server","transport":"stdio","kind":"http","headers":{"mcp-method":"ping"}}"#.to_owned(),
        post(2, r#"{"mcp-method":"ping"}"#),
        client(3, payload),
    ])
}

#[test]
fn only_client_posts_over_streamable_http_are_posts() {
    let document = mixed_transports(&format!(
        r#"{{"jsonrpc":"2.0","id":1,"method":"ping","params":{{{META}}}}}"#
    ));
    let parsed = events(&document);
    let context = TraceContext::new(&parsed);
    let found = posts(&context);

    assert_eq!(found.len(), 1, "the server and stdio events are not POSTs");
    assert_eq!(found[0].seq, 2);
    assert_eq!(found[0].message_seq, 3);
    assert_eq!(found[0].method(), Some("ping"));
}

#[test]
fn a_post_is_a_request_only_with_both_a_method_and_an_id() {
    let cases = [
        (r#"{"jsonrpc":"2.0","id":1,"method":"ping"}"#, true),
        (r#"{"jsonrpc":"2.0","method":"notifications/x"}"#, false),
        (r#"{"jsonrpc":"2.0","id":1,"result":{}}"#, false),
        (r#"{"jsonrpc":"2.0","id":null,"method":"ping"}"#, false),
    ];
    for (payload, expected) in cases {
        let document = mixed_transports(payload);
        let parsed = events(&document);
        let context = TraceContext::new(&parsed);
        let found = posts(&context);
        assert_eq!(found[0].is_request(), expected, "{payload}");
    }
}

#[test]
fn mirrors_are_sourced_from_the_body_and_never_invented() {
    let document = trace(&[
        post(0, r#"{"mcp-method":"resources/read"}"#),
        client(
            1,
            &format!(
                r#"{{"jsonrpc":"2.0","id":1,"method":"resources/read","params":{{"uri":"file:///a.txt",{META}}}}}"#
            ),
        ),
    ]);
    let parsed = events(&document);
    let context = TraceContext::new(&parsed);
    let found = posts(&context);
    let resolved = mirrors(&found[0], &Vec::new());

    let named: Vec<(&str, &str)> = resolved
        .iter()
        .map(|mirror| (mirror.header.as_str(), mirror.value.as_str()))
        .collect();
    assert_eq!(
        named,
        [("mcp-method", "resources/read"), ("mcp-name", "file:///a.txt")],
        "resources/read sources Mcp-Name from params.uri"
    );

    let bare = trace(&[
        post(0, r#"{"mcp-method":"tools/call"}"#),
        client(
            1,
            &format!(r#"{{"jsonrpc":"2.0","id":1,"method":"tools/call","params":{{{META}}}}}"#),
        ),
    ]);
    let parsed = events(&bare);
    let context = TraceContext::new(&parsed);
    let found = posts(&context);
    let resolved = mirrors(&found[0], &Vec::new());
    assert_eq!(resolved.len(), 1, "only Mcp-Method: params.name is absent");
    assert!(!resolved[0].encodable, "Mcp-Method never takes the sentinel");
}
