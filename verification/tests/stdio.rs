use mcp_trace_validator::checks::find;
use mcp_trace_validator::context::TraceContext;
use mcp_trace_validator::json::{Json, Number};
use mcp_trace_validator::trace::{events_from_records, TraceEvent};

/// The `_meta` envelope a conforming `2026-07-28` request carries.
#[allow(dead_code)]
const META: &str = r#""_meta":{"io.modelcontextprotocol/protocolVersion":"2026-07-28","io.modelcontextprotocol/clientCapabilities":{}}"#;

/// The library's value for a parsed JSON value.
fn to_json(value: &serde_json::Value) -> Json {
    match value {
        serde_json::Value::Null => Json::Null,
        serde_json::Value::Bool(b) => Json::Bool(*b),
        serde_json::Value::Number(n) => {
            if let Some(u) = n.as_u64() {
                Json::Num(Number::Unsigned(u))
            } else if let Some(i) = n.as_i64() {
                Json::Num(Number::Negative(i))
            } else {
                Json::Num(Number::Decimal(n.to_string()))
            }
        }
        serde_json::Value::String(s) => Json::Str(s.clone()),
        serde_json::Value::Array(items) => Json::Array(items.iter().map(to_json).collect()),
        serde_json::Value::Object(members) => Json::Object(
            members.iter().map(|(k, v)| (k.clone(), to_json(v))).collect(),
        ),
    }
}

/// Parses a JSON Lines trace, panicking with the reason if it is malformed.
#[allow(dead_code)]
fn events(trace: &str) -> Vec<TraceEvent> {
    let records: Vec<Json> = trace
        .lines()
        .filter(|line| !line.trim().is_empty())
        .map(|line| to_json(&serde_json::from_str(line).expect("test trace line is JSON")))
        .collect();
    events_from_records(records).expect("test trace parses")
}

/// The details one check reports for a trace, in event order.
#[allow(dead_code)]
fn findings_for(check: &str, trace: &str) -> Vec<String> {
    let events = events(trace);
    let context = TraceContext::new(&events);
    find(check)
        .expect("check is registered")
        .run(&context)
        .findings
        .into_iter()
        .map(|finding| finding.detail)
        .collect()
}

/// One JSON Lines record over Streamable HTTP.
#[allow(dead_code)]
fn line(seq: u64, direction: &str, kind: &str, rest: &str) -> String {
    format!(
        r#"{{"seq":{seq},"direction":"{direction}","transport":"streamable-http","kind":"{kind}","payload":{rest}}}"#
    )
}

/// A client message event.
#[allow(dead_code)]
fn client(seq: u64, payload: &str) -> String {
    line(seq, "client-to-server", "message", payload)
}

/// A server message event.
#[allow(dead_code)]
fn server(seq: u64, payload: &str) -> String {
    line(seq, "server-to-client", "message", payload)
}

/// A client POST's HTTP event, carrying `headers` verbatim as a JSON object.
#[allow(dead_code)]
fn post(seq: u64, headers: &str) -> String {
    format!(
        r#"{{"seq":{seq},"direction":"client-to-server","transport":"streamable-http","kind":"http","headers":{headers}}}"#
    )
}

/// A server response's HTTP event with a status and no headers.
#[allow(dead_code)]
fn status(seq: u64, status: u16) -> String {
    format!(
        r#"{{"seq":{seq},"direction":"server-to-client","transport":"streamable-http","kind":"http","status":{status}}}"#
    )
}

/// A server error response for `id` carrying `code`.
#[allow(dead_code)]
fn error(seq: u64, id: &str, code: i64) -> String {
    server(
        seq,
        &format!(r#"{{"jsonrpc":"2.0","id":{id},"error":{{"code":{code},"message":"x"}}}}"#),
    )
}

/// Joins record lines into a trace document.
#[allow(dead_code)]
fn trace(lines: &[String]) -> String {
    lines.join("\n")
}
const REFERENCES: &str = "transport.cancel-notification-references-request";
const AFTER: &str = "transport.no-messages-after-cancel-notification";

/// A client `notifications/cancelled` whose `params` are `params`.
fn cancel(seq: u64, params: &str) -> String {
    client(
        seq,
        &format!(r#"{{"jsonrpc":"2.0","method":"notifications/cancelled"{params}}}"#),
    )
}

/// A client request `id` opting into progress token `token` when given.
fn request(seq: u64, id: u64, token: Option<&str>) -> String {
    let meta = token.map_or_else(String::new, |token| {
        format!(r#","params":{{"_meta":{{"progressToken":"{token}"}}}}"#)
    });
    client(
        seq,
        &format!(r#"{{"jsonrpc":"2.0","id":{id},"method":"tools/call"{meta}}}"#),
    )
}

/// A server `notifications/progress` for `token`.
fn progress(seq: u64, token: &str) -> String {
    server(
        seq,
        &format!(
            r#"{{"jsonrpc":"2.0","method":"notifications/progress","params":{{"progressToken":"{token}","progress":1}}}}"#
        ),
    )
}

#[test]
fn a_cancellation_must_name_a_request() {
    for params in [
        "",
        r#","params":{}"#,
        r#","params":{"reason":"user"}"#,
        r#","params":{"requestId":null}"#,
    ] {
        let findings = findings_for(REFERENCES, &cancel(0, params));
        assert_eq!(findings.len(), 1, "params {params:?}: {findings:?}");
        assert!(findings[0].contains("requestId"), "{findings:?}");
    }
}

#[test]
fn a_cancellation_naming_a_request_conforms() {
    for params in [
        r#","params":{"requestId":1}"#,
        r#","params":{"requestId":"abc"}"#,
        r#","params":{"requestId":1,"reason":"user"}"#,
    ] {
        assert!(
            findings_for(REFERENCES, &cancel(0, params)).is_empty(),
            "params {params:?}"
        );
    }
}

#[test]
fn only_the_clients_cancellations_are_judged() {
    // The clause binds the client. A server-sent notification of the same name
    // is not the client cancelling anything.
    let from_server = server(0, r#"{"jsonrpc":"2.0","method":"notifications/cancelled"}"#);
    assert!(findings_for(REFERENCES, &from_server).is_empty());

    // Nor is a message with an id, which is a request rather than a notification.
    let as_request = client(
        0,
        r#"{"jsonrpc":"2.0","id":1,"method":"notifications/cancelled"}"#,
    );
    assert!(findings_for(REFERENCES, &as_request).is_empty());
}

#[test]
fn other_notifications_are_not_this_clauses_business() {
    let unrelated = client(0, r#"{"jsonrpc":"2.0","method":"notifications/progress"}"#);
    assert!(findings_for(REFERENCES, &unrelated).is_empty());
}

#[test]
fn answering_a_cancelled_request_is_the_violation() {
    let session = trace(&[
        request(0, 1, None),
        cancel(1, r#","params":{"requestId":1}"#),
        server(
            2,
            r#"{"jsonrpc":"2.0","id":1,"result":{"resultType":"complete"}}"#,
        ),
    ]);
    let findings = findings_for(AFTER, &session);
    assert_eq!(findings.len(), 1, "{findings:?}");
    assert!(findings[0].contains("a response"), "{findings:?}");
    assert!(findings[0].contains("seq 1"), "{findings:?}");

    // An error is a response too.
    let errored = session.replace(
        r#"{"jsonrpc":"2.0","id":1,"result":{"resultType":"complete"}}"#,
        r#"{"jsonrpc":"2.0","id":1,"error":{"code":-32603,"message":"x"}}"#,
    );
    assert_eq!(findings_for(AFTER, &errored).len(), 1);
}

#[test]
fn answering_before_the_cancellation_conforms() {
    // The server had already finished; the late notification cancels nothing.
    let session = trace(&[
        request(0, 1, None),
        server(
            1,
            r#"{"jsonrpc":"2.0","id":1,"result":{"resultType":"complete"}}"#,
        ),
        cancel(2, r#","params":{"requestId":1}"#),
    ]);
    assert!(findings_for(AFTER, &session).is_empty());
}

#[test]
fn a_different_request_may_still_be_answered() {
    let session = trace(&[
        request(0, 1, None),
        request(1, 2, None),
        cancel(2, r#","params":{"requestId":1}"#),
        server(
            3,
            r#"{"jsonrpc":"2.0","id":2,"result":{"resultType":"complete"}}"#,
        ),
    ]);
    assert!(findings_for(AFTER, &session).is_empty());
}

#[test]
fn progress_for_a_cancelled_request_is_a_further_message() {
    // Correlated by the token the request opted into, not by JSON-RPC id — the
    // only link a progress notification carries.
    let session = trace(&[
        request(0, 1, Some("tok-1")),
        cancel(1, r#","params":{"requestId":1}"#),
        progress(2, "tok-1"),
    ]);
    let findings = findings_for(AFTER, &session);
    assert_eq!(findings.len(), 1, "{findings:?}");
    assert!(findings[0].contains("progress"), "{findings:?}");

    // A token belonging to some other request is not this request's progress.
    let other = trace(&[
        request(0, 1, Some("tok-1")),
        request(1, 2, Some("tok-2")),
        cancel(2, r#","params":{"requestId":1}"#),
        progress(3, "tok-2"),
    ]);
    assert!(findings_for(AFTER, &other).is_empty());

    // And progress that arrived before the cancellation is not "further".
    let early = trace(&[
        request(0, 1, Some("tok-1")),
        progress(1, "tok-1"),
        cancel(2, r#","params":{"requestId":1}"#),
    ]);
    assert!(findings_for(AFTER, &early).is_empty());
}

#[test]
fn a_cancellation_for_a_request_the_recording_never_saw_still_binds() {
    // The prohibition is on the id, not on this trace having witnessed the
    // request open — a recording that starts mid-session must not excuse the
    // server from honouring a cancellation it received.
    let session = trace(&[
        cancel(0, r#","params":{"requestId":9}"#),
        server(
            1,
            r#"{"jsonrpc":"2.0","id":9,"result":{"resultType":"complete"}}"#,
        ),
    ]);
    assert_eq!(findings_for(AFTER, &session).len(), 1);
}

#[test]
fn a_session_without_cancellation_is_not_judged() {
    let session = trace(&[
        request(0, 1, Some("tok-1")),
        progress(1, "tok-1"),
        server(
            2,
            r#"{"jsonrpc":"2.0","id":1,"result":{"resultType":"complete"}}"#,
        ),
    ]);
    assert!(findings_for(AFTER, &session).is_empty());
    assert!(findings_for(REFERENCES, &session).is_empty());
}

#[test]
fn a_cancellation_naming_no_request_cancels_nothing_here() {
    // The other check reports the malformed notification; this check must not invent a
    // cancellation out of it and start failing the server as well.
    let session = trace(&[
        request(0, 1, None),
        cancel(1, r#","params":{}"#),
        server(
            2,
            r#"{"jsonrpc":"2.0","id":1,"result":{"resultType":"complete"}}"#,
        ),
    ]);
    assert!(findings_for(AFTER, &session).is_empty());
}


#[test]
fn progress_shared_by_two_requests_is_credited_to_the_least_id() {
    // Two requests opted into one token; the cancelled one is `"a"`, which
    // comes first in character order, so the progress is its.
    let session = trace(&[
        client(0, r#"{"jsonrpc":"2.0","id":"b","method":"tools/call","params":{"_meta":{"progressToken":"t"}}}"#),
        client(1, r#"{"jsonrpc":"2.0","id":"a","method":"tools/call","params":{"_meta":{"progressToken":"t"}}}"#),
        cancel(2, r#","params":{"requestId":"a"}"#),
        progress(3, "t"),
    ]);
    assert_eq!(findings_for(AFTER, &session).len(), 1);

    // Cancelling `"b"` instead leaves the progress with `"a"`.
    let other = session.replace(r#""requestId":"a""#, r#""requestId":"b""#);
    assert!(findings_for(AFTER, &other).is_empty());
}

#[test]
fn the_first_cancellation_of_an_id_is_the_one_reported() {
    let session = trace(&[
        request(0, 1, None),
        cancel(1, r#","params":{"requestId":1}"#),
        cancel(2, r#","params":{"requestId":1}"#),
        server(3, r#"{"jsonrpc":"2.0","id":1,"result":{"resultType":"complete"}}"#),
    ]);
    let findings = findings_for(AFTER, &session);
    assert_eq!(
        findings,
        ["server sent a response for request 1, which the client cancelled at seq 1"]
    );
}
