use mcp_trace_validator::checks::find;
use mcp_trace_validator::context::TraceContext;
use mcp_trace_validator::json::{Json, Number};
use mcp_trace_validator::trace::{events_from_records, TraceEvent};

/// The `_meta` envelope a conforming `2026-07-28` request carries.
#[allow(dead_code)]
const META: &str = r#""_meta":{"io.modelcontextprotocol/protocolVersion":"2026-07-28","io.modelcontextprotocol/clientCapabilities":{}}"#;

/// The library's value for a parsed JSON value.
fn to_json(value: &serde_json::Value) -> Json {
    match value {
        serde_json::Value::Null => Json::Null,
        serde_json::Value::Bool(b) => Json::Bool(*b),
        serde_json::Value::Number(n) => {
            if let Some(u) = n.as_u64() {
                Json::Num(Number::Unsigned(u))
            } else if let Some(i) = n.as_i64() {
                Json::Num(Number::Negative(i))
            } else {
                Json::Num(Number::Decimal(n.to_string()))
            }
        }
        serde_json::Value::String(s) => Json::Str(s.clone()),
        serde_json::Value::Array(items) => Json::Array(items.iter().map(to_json).collect()),
        serde_json::Value::Object(members) => Json::Object(
            members.iter().map(|(k, v)| (k.clone(), to_json(v))).collect(),
        ),
    }
}

/// Parses a JSON Lines trace, panicking with the reason if it is malformed.
#[allow(dead_code)]
fn events(trace: &str) -> Vec<TraceEvent> {
    let records: Vec<Json> = trace
        .lines()
        .filter(|line| !line.trim().is_empty())
        .map(|line| to_json(&serde_json::from_str(line).expect("test trace line is JSON")))
        .collect();
    events_from_records(records).expect("test trace parses")
}

/// The details one check reports for a trace, in event order.
#[allow(dead_code)]
fn findings_for(check: &str, trace: &str) -> Vec<String> {
    let events = events(trace);
    let context = TraceContext::new(&events);
    find(check)
        .expect("check is registered")
        .run(&context)
        .findings
        .into_iter()
        .map(|finding| finding.detail)
        .collect()
}

/// One JSON Lines record over Streamable HTTP.
#[allow(dead_code)]
fn line(seq: u64, direction: &str, kind: &str, rest: &str) -> String {
    format!(
        r#"{{"seq":{seq},"direction":"{direction}","transport":"streamable-http","kind":"{kind}","payload":{rest}}}"#
    )
}

/// A client message event.
#[allow(dead_code)]
fn client(seq: u64, payload: &str) -> String {
    line(seq, "client-to-server", "message", payload)
}

/// A server message event.
#[allow(dead_code)]
fn server(seq: u64, payload: &str) -> String {
    line(seq, "server-to-client", "message", payload)
}

/// A client POST's HTTP event, carrying `headers` verbatim as a JSON object.
#[allow(dead_code)]
fn post(seq: u64, headers: &str) -> String {
    format!(
        r#"{{"seq":{seq},"direction":"client-to-server","transport":"streamable-http","kind":"http","headers":{headers}}}"#
    )
}

/// A server response's HTTP event with a status and no headers.
#[allow(dead_code)]
fn status(seq: u64, status: u16) -> String {
    format!(
        r#"{{"seq":{seq},"direction":"server-to-client","transport":"streamable-http","kind":"http","status":{status}}}"#
    )
}

/// A server error response for `id` carrying `code`.
#[allow(dead_code)]
fn error(seq: u64, id: &str, code: i64) -> String {
    server(
        seq,
        &format!(r#"{{"jsonrpc":"2.0","id":{id},"error":{{"code":{code},"message":"x"}}}}"#),
    )
}

/// Joins record lines into a trace document.
#[allow(dead_code)]
fn trace(lines: &[String]) -> String {
    lines.join("\n")
}

fn msg(seq: u64, direction: &str, payload: &str) -> String {
    format!(
        r#"{{"seq":{seq},"direction":"{direction}","transport":"stdio","kind":"message","payload":{payload}}}"#
    )
}

fn events_of(lines: &[String]) -> Vec<TraceEvent> {
    events(&lines.join("\n"))
}

#[test]
fn pairs_results_and_errors_with_their_requests() {
    let events = events_of(&[
        msg(0, "client-to-server", r#"{"jsonrpc":"2.0","id":1,"method":"tools/list"}"#),
        msg(1, "client-to-server", r#"{"jsonrpc":"2.0","id":2,"method":"tools/call","params":{"name":"echo"}}"#),
        msg(2, "server-to-client", r#"{"jsonrpc":"2.0","id":2,"error":{"code":-32602,"message":"x"}}"#),
        msg(3, "server-to-client", r#"{"jsonrpc":"2.0","id":1,"result":{"tools":[]}}"#),
    ]);
    let context = TraceContext::new(&events);
    let exchanges = context.exchanges();
    assert_eq!(exchanges.len(), 2);
    assert_eq!(exchanges[0].method, "tools/call");
    assert_eq!(exchanges[0].request.seq, 1);
    assert_eq!(exchanges[0].response.seq, 2);
    assert!(exchanges[0].result.is_none(), "error responses have no result");
    assert!(exchanges[0].params.is_some());
    assert_eq!(exchanges[1].method, "tools/list");
    assert_eq!(exchanges[1].response.seq, 3);
    assert_eq!(exchanges[1].result.unwrap().to_text(), r#"{"tools":[]}"#);
    assert!(exchanges[1].params.is_none());
}

#[test]
fn responses_pair_only_against_the_opposite_direction() {
    let events = events_of(&[
        msg(0, "client-to-server", r#"{"jsonrpc":"2.0","id":1,"method":"tools/list"}"#),
        msg(1, "client-to-server", r#"{"jsonrpc":"2.0","id":1,"result":{}}"#),
    ]);
    let context = TraceContext::new(&events);
    assert_eq!(context.exchanges().len(), 0);
}

#[test]
fn duplicate_request_ids_pair_earliest_first() {
    let events = events_of(&[
        msg(0, "client-to-server", r#"{"jsonrpc":"2.0","id":7,"method":"ping"}"#),
        msg(1, "client-to-server", r#"{"jsonrpc":"2.0","id":7,"method":"tools/list"}"#),
        msg(2, "server-to-client", r#"{"jsonrpc":"2.0","id":7,"result":{}}"#),
        msg(3, "server-to-client", r#"{"jsonrpc":"2.0","id":7,"result":{"tools":[]}}"#),
    ]);
    let context = TraceContext::new(&events);
    let methods: Vec<&str> = context.exchanges().iter().map(|exchange| exchange.method).collect();
    assert_eq!(methods, ["ping", "tools/list"]);
}

#[test]
fn unanswered_and_unsolicited_messages_pair_with_nothing() {
    let events = events_of(&[
        msg(0, "client-to-server", r#"{"jsonrpc":"2.0","id":1,"method":"tools/list"}"#),
        msg(1, "server-to-client", r#"{"jsonrpc":"2.0","id":99,"result":{}}"#),
        msg(2, "server-to-client", r#"{"jsonrpc":"2.0","result":{}}"#),
        msg(3, "client-to-server", r#"{"jsonrpc":"2.0","method":"notifications/initialized"}"#),
    ]);
    let context = TraceContext::new(&events);
    assert_eq!(context.exchanges().len(), 0);
}

#[test]
fn an_id_is_answered_once_then_reopens_for_nothing() {
    let events = events_of(&[
        msg(0, "client-to-server", r#"{"jsonrpc":"2.0","id":1,"method":"ping"}"#),
        msg(1, "server-to-client", r#"{"jsonrpc":"2.0","id":1,"result":{}}"#),
        msg(2, "server-to-client", r#"{"jsonrpc":"2.0","id":1,"result":{}}"#),
    ]);
    let context = TraceContext::new(&events);
    assert_eq!(context.exchanges().len(), 1);
}

#[test]
fn exchanges_for_filters_by_method() {
    let events = events_of(&[
        msg(0, "client-to-server", r#"{"jsonrpc":"2.0","id":1,"method":"ping"}"#),
        msg(1, "server-to-client", r#"{"jsonrpc":"2.0","id":1,"result":{}}"#),
        msg(2, "client-to-server", r#"{"jsonrpc":"2.0","id":2,"method":"tools/list"}"#),
        msg(3, "server-to-client", r#"{"jsonrpc":"2.0","id":2,"result":{"tools":[]}}"#),
    ]);
    let context = TraceContext::new(&events);
    assert_eq!(context.exchanges_for("tools/list").len(), 1);
    assert_eq!(context.exchanges_for("ping").len(), 1);
    assert_eq!(context.exchanges_for("prompts/list").len(), 0);
}

#[test]
fn a_response_preceding_its_request_pairs_with_nothing() {
    let events = events_of(&[
        msg(0, "server-to-client", r#"{"jsonrpc":"2.0","id":5,"result":{"tools":[]}}"#),
        msg(1, "client-to-server", r#"{"jsonrpc":"2.0","id":5,"method":"tools/list"}"#),
    ]);
    let context = TraceContext::new(&events);
    assert_eq!(
        context.exchanges().len(),
        0,
        "a response cannot pair with a request that appears after it"
    );
}

#[test]
fn server_initiated_requests_pair_with_client_responses() {
    let events = events_of(&[
        msg(0, "server-to-client", r#"{"jsonrpc":"2.0","id":"s1","method":"sampling/createMessage","params":{}}"#),
        msg(1, "client-to-server", r#"{"jsonrpc":"2.0","id":"s1","result":{"role":"assistant"}}"#),
    ]);
    let context = TraceContext::new(&events);
    let exchanges = context.exchanges();
    assert_eq!(exchanges.len(), 1);
    assert_eq!(exchanges[0].method, "sampling/createMessage");
}
