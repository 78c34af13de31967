use mcp_trace_validator::checks::find;
use mcp_trace_validator::context::TraceContext;
use mcp_trace_validator::json::{Json, Number};
use mcp_trace_validator::trace::{events_from_records, TraceEvent};

/// The `_meta` envelope a conforming `2026-07-28` request carries.
#[allow(dead_code)]
const META: &str = r#""_meta":{"io.modelcontextprotocol/protocolVersion":"2026-07-28","io.modelcontextprotocol/clientCapabilities":{}}"#;

/// The library's value for a parsed JSON value.
fn to_json(value: &serde_json::Value) -> Json {
    match value {
        serde_json::Value::Null => Json::Null,
        serde_json::Value::Bool(b) => Json::Bool(*b),
        serde_json::Value::Number(n) => {
            if let Some(u) = n.as_u64() {
                Json::Num(Number::Unsigned(u))
            } else if let Some(i) = n.as_i64() {
                Json::Num(Number::Negative(i))
            } else {
                Json::Num(Number::Decimal(n.to_string()))
            }
        }
        serde_json::Value::String(s) => Json::Str(s.clone()),
        serde_json::Value::Array(items) => Json::Array(items.iter().map(to_json).collect()),
        serde_json::Value::Object(members) => Json::Object(
            members.iter().map(|(k, v)| (k.clone(), to_json(v))).collect(),
        ),
    }
}

/// Parses a JSON Lines trace, panicking with the reason if it is malformed.
#[allow(dead_code)]
fn events(trace: &str) -> Vec<TraceEvent> {
    let records: Vec<Json> = trace
        .lines()
        .filter(|line| !line.trim().is_empty())
        .map(|line| to_json(&serde_json::from_str(line).expect("test trace line is JSON")))
        .collect();
    events_from_records(records).expect("test trace parses")
}

/// The details one check reports for a trace, in event order.
#[allow(dead_code)]
fn findings_for(check: &str, trace: &str) -> Vec<String> {
    let events = events(trace);
    let context = TraceContext::new(&events);
    find(check)
        .expect("check is registered")
        .run(&context)
        .findings
        .into_iter()
        .map(|finding| finding.detail)
        .collect()
}

/// One JSON Lines record over Streamable HTTP.
#[allow(dead_code)]
fn line(seq: u64, direction: &str, kind: &str, rest: &str) -> String {
    format!(
        r#"{{"seq":{seq},"direction":"{direction}","transport":"streamable-http","kind":"{kind}","payload":{rest}}}"#
    )
}

/// A client message event.
#[allow(dead_code)]
fn client(seq: u64, payload: &str) -> String {
    line(seq, "client-to-server", "message", payload)
}

/// A server message event.
#[allow(dead_code)]
fn server(seq: u64, payload: &str) -> String {
    line(seq, "server-to-client", "message", payload)
}

/// A client POST's HTTP event, carrying `headers` verbatim as a JSON object.
#[allow(dead_code)]
fn post(seq: u64, headers: &str) -> String {
    format!(
        r#"{{"seq":{seq},"direction":"client-to-server","transport":"streamable-http","kind":"http","headers":{headers}}}"#
    )
}

/// A server response's HTTP event with a status and no headers.
#[allow(dead_code)]
fn status(seq: u64, status: u16) -> String {
    format!(
        r#"{{"seq":{seq},"direction":"server-to-client","transport":"streamable-http","kind":"http","status":{status}}}"#
    )
}

/// A server error response for `id` carrying `code`.
#[allow(dead_code)]
fn error(seq: u64, id: &str, code: i64) -> String {
    server(
        seq,
        &format!(r#"{{"jsonrpc":"2.0","id":{id},"error":{{"code":{code},"message":"x"}}}}"#),
    )
}

/// Joins record lines into a trace document.
#[allow(dead_code)]
fn trace(lines: &[String]) -> String {
    lines.join("\n")
}

use mcp_trace_validator::checks::support::http_status_for;
use mcp_trace_validator::checks::trace_context::validate_traceparent;

/// The W3C Trace Context specification's own example value.
const VALID: &str = "00-4bf92f3577b34da6a3ce929d0e0e4736-00f067aa0ba902b7-01";

/// A request whose `_meta` omits `clientCapabilities`, answered by `answer`.
fn incomplete_envelope(answer: &str) -> String {
    trace(&[
        client(
            0,
            r#"{"jsonrpc":"2.0","id":1,"method":"ping","params":{"_meta":{"io.modelcontextprotocol/protocolVersion":"2026-07-28"}}}"#,
        ),
        server(1, answer),
    ])
}

/// A `-32021` whose `data` is `data`.
fn capability_error(data: &str) -> String {
    trace(&[
        client(0, &format!(r#"{{"jsonrpc":"2.0","id":1,"method":"ping","params":{{{META}}}}}"#)),
        server(
            1,
            &format!(r#"{{"jsonrpc":"2.0","id":1,"error":{{"code":-32021,"message":"x"{data}}}}}"#),
        ),
    ])
}

/// A `tools/call` declaring `capabilities`, answered by an `input_required`
/// result asking for `method`.
fn asks_for(capabilities: &str, method: &str) -> String {
    trace(&[
        client(
            0,
            &format!(
                r#"{{"jsonrpc":"2.0","id":1,"method":"tools/call","params":{{"name":"t","_meta":{{"io.modelcontextprotocol/protocolVersion":"2026-07-28","io.modelcontextprotocol/clientCapabilities":{capabilities}}}}}}}"#
            ),
        ),
        server(
            1,
            &format!(
                r#"{{"jsonrpc":"2.0","id":1,"result":{{"resultType":"input_required","inputRequests":{{"a":{{"method":"{method}"}}}}}}}}"#
            ),
        ),
    ])
}

/// A `subscriptions/listen` session carrying `notification` on its stream.
fn listening(notification: &str) -> String {
    trace(&[
        client(
            0,
            &format!(r#"{{"jsonrpc":"2.0","id":1,"method":"subscriptions/listen","params":{{{META}}}}}"#),
        ),
        server(1, notification),
    ])
}

fn text(value: &str) -> Json {
    Json::Str(value.to_owned())
}

fn assert_traceparent_grammar() {
    assert!(validate_traceparent(&text(VALID)).is_ok());
    let rejected = [
        "00-4bf92f3577b34da6a3ce929d0e0e4736-00f067aa0ba902b7",
        "00-4bf92f3577b34da6a3ce929d0e0e4736-00f067aa0ba902b7-01-extra",
        "0-4bf92f3577b34da6a3ce929d0e0e4736-00f067aa0ba902b7-01",
        "0g-4bf92f3577b34da6a3ce929d0e0e4736-00f067aa0ba902b7-01",
        "0A-4bf92f3577b34da6a3ce929d0e0e4736-00f067aa0ba902b7-01",
        "00-4bf92f3577b34da6a3ce929d0e0e473-00f067aa0ba902b7-01",
        "00-4BF92F3577B34DA6A3CE929D0E0E4736-00f067aa0ba902b7-01",
        "00-4bf92f3577b34da6a3ce929d0e0e473z-00f067aa0ba902b7-01",
        "00-00000000000000000000000000000000-00f067aa0ba902b7-01",
        "00-4bf92f3577b34da6a3ce929d0e0e4736-00f067aa0ba902b-01",
        "00-4bf92f3577b34da6a3ce929d0e0e4736-00F067AA0BA902B7-01",
        "00-4bf92f3577b34da6a3ce929d0e0e4736-0000000000000000-01",
        "00-4bf92f3577b34da6a3ce929d0e0e4736-00f067aa0ba902b7-1",
        "00-4bf92f3577b34da6a3ce929d0e0e4736-00f067aa0ba902b7-0g",
    ];
    for value in rejected {
        assert!(validate_traceparent(&text(value)).is_err(), "{value:?} should be rejected");
    }
    assert!(validate_traceparent(&Json::Num(Number::Unsigned(42))).is_err());
    assert!(validate_traceparent(&Json::Null).is_err());
}

fn assert_trace_context_envelopes() {
    let check = "meta.trace-context-format";
    let request_side = trace(&[
        post(0, r#"{"mcp-method":"ping"}"#),
        client(
            1,
            r#"{"jsonrpc":"2.0","id":1,"method":"ping","params":{"_meta":{"io.modelcontextprotocol/protocolVersion":"2026-07-28","io.modelcontextprotocol/clientCapabilities":{},"traceparent":"nope"}}}"#,
        ),
    ]);
    assert_eq!(findings_for(check, &request_side).len(), 1);

    let result_side = trace(&[
        post(0, r#"{"mcp-method":"ping"}"#),
        client(1, &format!(r#"{{"jsonrpc":"2.0","id":1,"method":"ping","params":{{{META}}}}}"#)),
        server(
            2,
            r#"{"jsonrpc":"2.0","id":1,"result":{"resultType":"complete","_meta":{"traceparent":"nope"}}}"#,
        ),
    ]);
    assert_eq!(findings_for(check, &result_side).len(), 1);

    let valid = request_side.replace("nope", VALID);
    assert!(findings_for(check, &valid).is_empty());
    let absent = trace(&[
        post(0, r#"{"mcp-method":"ping"}"#),
        client(1, &format!(r#"{{"jsonrpc":"2.0","id":1,"method":"ping","params":{{{META}}}}}"#)),
    ]);
    assert!(findings_for(check, &absent).is_empty());

    let bad_state = request_side.replace(r#""traceparent":"nope""#, r#""tracestate":42"#);
    assert_eq!(findings_for(check, &bad_state).len(), 1);
    let good_state = request_side.replace(r#""traceparent":"nope""#, r#""baggage":"k=v""#);
    assert!(findings_for(check, &good_state).is_empty());
}

#[test]
fn the_traceparent_grammar_is_pinned_field_by_field() {
    assert_traceparent_grammar();
}

#[test]
fn tests_the_traceparent_grammar_is_pinned_field_by_field() {
    assert_traceparent_grammar();
}

#[test]
fn trace_context_is_read_from_both_envelopes_and_only_when_present() {
    assert_trace_context_envelopes();
}

#[test]
fn tests_trace_context_is_read_from_both_envelopes_and_only_when_present() {
    assert_trace_context_envelopes();
}

#[test]
fn a_traceparent_reason_names_the_field() {
    assert_eq!(
        validate_traceparent(&text("00-4bf92f3577b34da6a3ce929d0e0e473-00f067aa0ba902b7-01")),
        Err(r#"has trace-id "4bf92f3577b34da6a3ce929d0e0e473"; expected 32 lowercase hex digits"#.to_owned())
    );
    assert_eq!(
        validate_traceparent(&text("nope")),
        Err(r#"is "nope"; W3C Trace Context requires four `-`-separated fields"#.to_owned())
    );
    assert_eq!(validate_traceparent(&Json::Null), Err("is not a string".to_owned()));
}

#[test]
fn a_malformed_envelope_must_draw_invalid_params() {
    let check = "meta.missing-required-field-rejected";
    assert_eq!(
        findings_for(
            check,
            &incomplete_envelope(r#"{"jsonrpc":"2.0","id":1,"result":{"resultType":"complete"}}"#)
        )
        .len(),
        1
    );
    let findings = findings_for(
        check,
        &incomplete_envelope(r#"{"jsonrpc":"2.0","id":1,"error":{"code":-32603,"message":"x"}}"#),
    );
    assert_eq!(findings.len(), 1, "{findings:?}");
    assert!(findings[0].contains("-32603"), "{findings:?}");
    assert!(findings_for(
        check,
        &incomplete_envelope(r#"{"jsonrpc":"2.0","id":1,"error":{"code":-32602,"message":"x"}}"#)
    )
    .is_empty());
    let complete = trace(&[
        client(0, &format!(r#"{{"jsonrpc":"2.0","id":1,"method":"ping","params":{{{META}}}}}"#)),
        server(1, r#"{"jsonrpc":"2.0","id":1,"result":{"resultType":"complete"}}"#),
    ]);
    assert!(findings_for(check, &complete).is_empty());
}

#[test]
fn the_missing_capability_error_must_list_what_was_missing() {
    let check = "meta.missing-capability-error";
    assert_eq!(findings_for(check, &capability_error("")).len(), 1);
    assert_eq!(
        findings_for(check, &capability_error(r#","data":{"requiredCapabilities":[]}"#)).len(),
        1
    );
    assert_eq!(
        findings_for(check, &capability_error(r#","data":{"requiredCapabilities":"elicitation"}"#)).len(),
        1
    );
    assert!(findings_for(check, &capability_error(r#","data":{"requiredCapabilities":["elicitation"]}"#))
        .is_empty());
    let other = capability_error("").replace("-32021", "-32602");
    assert!(findings_for(check, &other).is_empty());
}

#[test]
fn a_capabilities_object_names_what_was_missing() {
    let check = "meta.missing-capability-error";
    assert!(findings_for(check, &capability_error(r#","data":{"requiredCapabilities":{"elicitation":{}}}"#))
        .is_empty());
    assert_eq!(
        findings_for(check, &capability_error(r#","data":{"requiredCapabilities":{}}"#)),
        vec!["error -32021 carries an empty `data.requiredCapabilities`; it must name the missing capabilities".to_owned()]
    );
}

#[test]
fn an_input_request_is_matched_to_the_capability_it_needs() {
    let check = "meta.no-undeclared-capability-reliance";
    for (method, capability) in [
        ("elicitation/create", "elicitation"),
        ("sampling/createMessage", "sampling"),
        ("roots/list", "roots"),
    ] {
        assert_eq!(findings_for(check, &asks_for("{}", method)).len(), 1, "{method} needs {capability}");
        let declared = format!(r#"{{"{capability}":{{}}}}"#);
        assert!(findings_for(check, &asks_for(&declared, method)).is_empty());
        assert_eq!(findings_for(check, &asks_for(r#"{"logging":{}}"#, method)).len(), 1);
    }
    assert!(findings_for(check, &asks_for("{}", "tools/list")).is_empty());
}

#[test]
fn subscription_tagging_binds_only_listen_streams_and_only_untagged_notifications() {
    let check = "meta.subscription-id-present";
    assert_eq!(
        findings_for(check, &listening(r#"{"jsonrpc":"2.0","method":"notifications/tools/list_changed"}"#)).len(),
        1
    );
    assert!(findings_for(
        check,
        &listening(
            r#"{"jsonrpc":"2.0","method":"notifications/tools/list_changed","params":{"_meta":{"io.modelcontextprotocol/subscriptionId":"s1"}}}"#
        )
    )
    .is_empty());
    for method in ["notifications/progress", "notifications/message"] {
        assert!(
            findings_for(check, &listening(&format!(r#"{{"jsonrpc":"2.0","method":"{method}"}}"#))).is_empty(),
            "{method} is request-scoped"
        );
    }
    assert!(findings_for(
        check,
        &listening(r#"{"jsonrpc":"2.0","id":7,"method":"elicitation/create","params":{}}"#)
    )
    .is_empty());
    assert!(findings_for(check, &listening(r#"{"jsonrpc":"2.0"}"#)).is_empty());
    assert!(findings_for(
        check,
        &listening(r#"{"jsonrpc":"2.0","id":1,"result":{"resultType":"complete"}}"#)
    )
    .is_empty());
    let unsubscribed = trace(&[
        client(0, &format!(r#"{{"jsonrpc":"2.0","id":1,"method":"ping","params":{{{META}}}}}"#)),
        server(1, r#"{"jsonrpc":"2.0","method":"notifications/tools/list_changed"}"#),
    ]);
    assert!(findings_for(check, &unsubscribed).is_empty());
}

#[test]
fn the_http_status_clauses_judge_only_their_own_error_code() {
    for (check, code) in [
        ("meta.missing-required-field-http-status", -32602),
        ("meta.missing-capability-http-status", -32021),
    ] {
        let document = trace(&[
            client(0, &format!(r#"{{"jsonrpc":"2.0","id":1,"method":"ping","params":{{{META}}}}}"#)),
            status(1, 500),
            server(2, &format!(r#"{{"jsonrpc":"2.0","id":1,"error":{{"code":{code},"message":"x"}}}}"#)),
        ]);
        assert_eq!(findings_for(check, &document).len(), 1, "{check}");
        assert!(findings_for(check, &document.replace("500", "400")).is_empty(), "{check} accepts 400");
        let other = document.replace(&code.to_string(), "-32700");
        assert!(findings_for(check, &other).is_empty(), "{check}");
    }
}

#[test]
fn required_request_fields_are_reported_one_by_one() {
    let session = trace(&[client(0, r#"{"jsonrpc":"2.0","id":1,"method":"ping","params":{"_meta":{}}}"#)]);
    assert_eq!(
        findings_for("meta.required-request-fields", &session),
        vec![
            "request `_meta` is missing required field `io.modelcontextprotocol/protocolVersion`".to_owned(),
            "request `_meta` is missing required field `io.modelcontextprotocol/clientCapabilities`".to_owned(),
        ]
    );
}

/// A two-exchange HTTP session: each response's `http` event precedes its message.
fn two_exchanges() -> Vec<String> {
    vec![
        post(0, r#"{"accept":"application/json, text/event-stream"}"#),
        client(1, r#"{"jsonrpc":"2.0","id":1,"method":"ping"}"#),
        status(2, 200),
        server(3, r#"{"jsonrpc":"2.0","id":1,"result":{"resultType":"complete"}}"#),
        status(4, 400),
        server(5, r#"{"jsonrpc":"2.0","id":2,"error":{"code":-32602,"message":"x"}}"#),
    ]
}

#[test]
fn a_message_rides_the_status_recorded_before_it() {
    let document = trace(&two_exchanges());
    let events = events(&document);
    let context = TraceContext::new(&events);
    assert_eq!(http_status_for(&context, 3), Some((2, 200)));
    assert_eq!(http_status_for(&context, 5), Some((4, 400)));
    assert_eq!(http_status_for(&context, 2), None);
    assert_eq!(http_status_for(&context, 0), None);
}

#[test]
fn only_server_sent_statuses_count() {
    let mut lines = two_exchanges();
    lines[4] =
        r#"{"seq":4,"direction":"client-to-server","transport":"streamable-http","kind":"http","status":418}"#
            .to_owned();
    let document = trace(&lines);
    let events = events(&document);
    let context = TraceContext::new(&events);
    assert_eq!(http_status_for(&context, 5), Some((2, 200)));
}

#[test]
fn a_stdio_trace_has_no_status_to_read() {
    let document = [
        r#"{"seq":0,"direction":"client-to-server","transport":"stdio","kind":"message","payload":{"jsonrpc":"2.0","id":1,"method":"ping"}}"#,
        r#"{"seq":1,"direction":"server-to-client","transport":"stdio","kind":"message","payload":{"jsonrpc":"2.0","id":1,"result":{"resultType":"complete"}}}"#,
    ]
    .join("\n");
    let events = events(&document);
    let context = TraceContext::new(&events);
    assert_eq!(http_status_for(&context, 1), None);
}
