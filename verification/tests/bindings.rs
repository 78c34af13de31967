use mcp_trace_validator::checks::find;
use mcp_trace_validator::context::TraceContext;
use mcp_trace_validator::json::{Json, Number};
use mcp_trace_validator::trace::{events_from_records, TraceEvent};

/// The `_meta` envelope a conforming `2026-07-28` request carries.
#[allow(dead_code)]
const META: &str = r#""_meta":{"io.modelcontextprotocol/protocolVersion":"2026-07-28","io.modelcontextprotocol/clientCapabilities":{}}"#;

/// The library's value for a parsed JSON value.
fn to_json(value: &serde_json::Value) -> Json {
    match value {
        serde_json::Value::Null => Json::Null,
        serde_json::Value::Bool(b) => Json::Bool(*b),
        serde_json::Value::Number(n) => {
            if let Some(u) = n.as_u64() {
                Json::Num(Number::Unsigned(u))
            } else if let Some(i) = n.as_i64() {
                Json::Num(Number::Negative(i))
            } else {
                Json::Num(Number::Decimal(n.to_string()))
            }
        }
        serde_json::Value::String(s) => Json::Str(s.clone()),
        serde_json::Value::Array(items) => Json::Array(items.iter().map(to_json).collect()),
        serde_json::Value::Object(members) => Json::Object(
            members.iter().map(|(k, v)| (k.clone(), to_json(v))).collect(),
        ),
    }
}

/// Parses a JSON Lines trace, panicking with the reason if it is malformed.
#[allow(dead_code)]
fn events(trace: &str) -> Vec<TraceEvent> {
    let records: Vec<Json> = trace
        .lines()
        .filter(|line| !line.trim().is_empty())
        .map(|line| to_json(&serde_json::from_str(line).expect("test trace line is JSON")))
        .collect();
    events_from_records(records).expect("test trace parses")
}

/// The details one check reports for a trace, in event order.
#[allow(dead_code)]
fn findings_for(check: &str, trace: &str) -> Vec<String> {
    let events = events(trace);
    let context = TraceContext::new(&events);
    find(check)
        .expect("check is registered")
        .run(&context)
        .findings
        .into_iter()
        .map(|finding| finding.detail)
        .collect()
}

/// One JSON Lines record over Streamable HTTP.
#[allow(dead_code)]
fn line(seq: u64, direction: &str, kind: &str, rest: &str) -> String {
    format!(
        r#"{{"seq":{seq},"direction":"{direction}","transport":"streamable-http","kind":"{kind}","payload":{rest}}}"#
    )
}

/// A client message event.
#[allow(dead_code)]
fn client(seq: u64, payload: &str) -> String {
    line(seq, "client-to-server", "message", payload)
}

/// A server message event.
#[allow(dead_code)]
fn server(seq: u64, payload: &str) -> String {
    line(seq, "server-to-client", "message", payload)
}

/// A client POST's HTTP event, carrying `headers` verbatim as a JSON object.
#[allow(dead_code)]
fn post(seq: u64, headers: &str) -> String {
    format!(
        r#"{{"seq":{seq},"direction":"client-to-server","transport":"streamable-http","kind":"http","headers":{headers}}}"#
    )
}

/// A server response's HTTP event with a status and no headers.
#[allow(dead_code)]
fn status(seq: u64, status: u16) -> String {
    format!(
        r#"{{"seq":{seq},"direction":"server-to-client","transport":"streamable-http","kind":"http","status":{status}}}"#
    )
}

/// A server error response for `id` carrying `code`.
#[allow(dead_code)]
fn error(seq: u64, id: &str, code: i64) -> String {
    server(
        seq,
        &format!(r#"{{"jsonrpc":"2.0","id":{id},"error":{{"code":{code},"message":"x"}}}}"#),
    )
}

/// Joins record lines into a trace document.
#[allow(dead_code)]
fn trace(lines: &[String]) -> String {
    lines.join("\n")
}
/// An HTTP session: initialize exchange with headers, then one more request.
fn http_session(response_headers: &str, followup_request_headers: &str) -> String {
    [
        r#"{"seq":0,"direction":"client-to-server","transport":"streamable-http","kind":"http","headers":{"accept":"application/json, text/event-stream"}}"#.to_owned(),
        r#"{"seq":1,"direction":"client-to-server","transport":"streamable-http","kind":"message","payload":{"jsonrpc":"2.0","id":1,"method":"initialize","params":{"protocolVersion":"2025-11-25","capabilities":{},"clientInfo":{"name":"t","version":"0"}}}}"#.to_owned(),
        format!(r#"{{"seq":2,"direction":"server-to-client","transport":"streamable-http","kind":"http","status":200,"headers":{response_headers}}}"#),
        r#"{"seq":3,"direction":"server-to-client","transport":"streamable-http","kind":"message","payload":{"jsonrpc":"2.0","id":1,"result":{"protocolVersion":"2025-11-25","capabilities":{},"serverInfo":{"name":"s","version":"0"}}}}"#.to_owned(),
        format!(r#"{{"seq":4,"direction":"client-to-server","transport":"streamable-http","kind":"http","headers":{followup_request_headers}}}"#),
        r#"{"seq":5,"direction":"client-to-server","transport":"streamable-http","kind":"message","payload":{"jsonrpc":"2.0","method":"notifications/initialized"}}"#.to_owned(),
    ]
    .join("\n")
}

#[test]
fn session_id_checks_judge_assignment_and_echo() {
    // Correct echo: no findings from either check.
    let good = http_session(
        r#"{"mcp-session-id":"abc123"}"#,
        r#"{"mcp-session-id":"abc123","mcp-protocol-version":"2025-11-25"}"#,
    );
    assert!(findings_for("transport.session-id-visible-ascii", &good).is_empty());
    assert!(findings_for("transport.session-id-echoed", &good).is_empty());

    // Wrong echo value.
    let wrong = http_session(
        r#"{"mcp-session-id":"abc123"}"#,
        r#"{"mcp-session-id":"zzz","mcp-protocol-version":"2025-11-25"}"#,
    );
    let findings = findings_for("transport.session-id-echoed", &wrong);
    assert_eq!(findings.len(), 1, "{findings:?}");
    assert!(findings[0].contains("\"zzz\""), "{findings:?}");

    // No session assigned: the echo check abstains entirely.
    let none = http_session("{}", "{}");
    assert!(findings_for("transport.session-id-echoed", &none).is_empty());
}

#[test]
fn session_id_ascii_boundaries_are_exact() {
    // 0x20 (space) and non-ASCII are out; 0x21 and 0x7E are in.
    let bad = http_session(r#"{"mcp-session-id":"has space"}"#, "{}");
    assert_eq!(
        findings_for("transport.session-id-visible-ascii", &bad).len(),
        1
    );
    let edges = http_session(r#"{"mcp-session-id":"!~"}"#, r#"{"mcp-session-id":"!~"}"#);
    assert!(findings_for("transport.session-id-visible-ascii", &edges).is_empty());
}

#[test]
fn protocol_version_checks_scope_to_requests_after_negotiation() {
    // The pre-initialize request (seq 0) must not be flagged; the follow-up
    // without the header must be.
    let missing = http_session("{}", r#"{"mcp-session-id":"x"}"#);
    let findings = findings_for("transport.protocol-version-header", &missing);
    assert_eq!(findings.len(), 1, "{findings:?}");

    let mismatched = http_session("{}", r#"{"mcp-protocol-version":"2024-11-05"}"#);
    let findings = findings_for("transport.protocol-version-negotiated", &mismatched);
    assert_eq!(findings.len(), 1, "{findings:?}");
    assert!(findings[0].contains("2024-11-05"), "{findings:?}");
    // The mismatched header satisfies presence.
    assert!(findings_for("transport.protocol-version-header", &mismatched).is_empty());
}

#[test]
fn stdio_validity_checks_are_direction_scoped() {
    let trace = r#"{"seq":0,"direction":"client-to-server","transport":"stdio","kind":"message","payload":{"jsonrpc":"2.0","id":1,"method":"initialize","params":{"protocolVersion":"2025-11-25","capabilities":{},"clientInfo":{"name":"t","version":"0"}}}}
{"seq":1,"direction":"server-to-client","transport":"stdio","kind":"message","payload":{"hello":"world"}}
{"seq":2,"direction":"client-to-server","transport":"stdio","kind":"message","payload":[1,2,3]}"#;
    let server = findings_for("transport.stdio-server-output-valid", trace);
    assert_eq!(server.len(), 1, "{server:?}");
    assert!(server[0].contains("stdout"), "{server:?}");
    let client = findings_for("transport.stdio-client-input-valid", trace);
    assert_eq!(client.len(), 1, "{client:?}");
    assert!(client[0].contains("not a JSON object"), "{client:?}");
}

/// One client HTTP request event, with whatever method and headers.
fn request(seq: u64, method: &str, headers: &str) -> String {
    format!(
        r#"{{"seq":{seq},"direction":"client-to-server","transport":"streamable-http","kind":"http","method":"{method}","headers":{headers}}}"#
    )
}

fn run(check: &str, lines: &[String]) -> Vec<String> {
    findings_for(check, &lines.join("\n"))
}

/// Whether the check examined any subject at all, which is what separates
/// `not observed` from `pass` in the report.
fn examined(check: &str, lines: &[String]) -> Option<u32> {
    let document = lines.join("\n");
    let parsed = events(&document);
    let context = TraceContext::new(&parsed);
    find(check).unwrap().run(&context).subjects
}

const BOTH: &str = r#"{"accept":"application/json, text/event-stream"}"#;

#[test]
fn a_post_must_offer_both_media_types() {
    let full = [request(0, "POST", BOTH)];
    assert!(run("transport.client-post-accept-header", &full).is_empty());

    // The half the old single check could not see: `text/event-stream`
    // alone satisfied it, though TRAN-025 names both.
    let stream_only = [request(0, "POST", r#"{"accept":"text/event-stream"}"#)];
    let findings = run("transport.client-post-accept-header", &stream_only);
    assert_eq!(findings.len(), 1, "{findings:?}");
    assert!(findings[0].contains("application/json"), "{findings:?}");

    let json_only = [request(0, "POST", r#"{"accept":"application/json"}"#)];
    let findings = run("transport.client-post-accept-header", &json_only);
    assert_eq!(findings.len(), 1, "{findings:?}");
    assert!(findings[0].contains("text/event-stream"), "{findings:?}");

    let none = [request(0, "POST", "{}")];
    let findings = run("transport.client-post-accept-header", &none);
    assert_eq!(findings.len(), 1, "{findings:?}");
    assert!(findings[0].contains("no Accept header"), "{findings:?}");
}

#[test]
fn a_get_must_offer_the_event_stream_only() {
    let stream_only = [request(0, "GET", r#"{"accept":"text/event-stream"}"#)];
    assert!(run("transport.client-get-accept-header", &stream_only).is_empty());

    let json_only = [request(0, "GET", r#"{"accept":"application/json"}"#)];
    let findings = run("transport.client-get-accept-header", &json_only);
    assert_eq!(findings.len(), 1, "{findings:?}");
    assert!(findings[0].contains("text/event-stream"), "{findings:?}");

    let none = [request(0, "GET", "{}")];
    let findings = run("transport.client-get-accept-header", &none);
    assert_eq!(findings.len(), 1, "{findings:?}");
    assert!(findings[0].contains("no Accept header"), "{findings:?}");
}

#[test]
fn a_session_teardown_delete_owes_no_accept_header() {
    // The exact exchange the reference host sends at teardown, which both
    // clauses used to fail: reqwest's default `Accept: */*` on a DELETE.
    let teardown = [
        request(0, "POST", BOTH),
        request(1, "DELETE", r#"{"accept":"*/*","mcp-session-id":"abc123"}"#),
    ];
    assert!(
        run("transport.client-post-accept-header", &teardown).is_empty(),
        "a DELETE is not a POST"
    );
    assert!(
        run("transport.client-get-accept-header", &teardown).is_empty(),
        "a DELETE is not a GET"
    );

    // A DELETE with no Accept header at all is equally conforming.
    let bare = [request(0, "DELETE", r#"{"mcp-session-id":"abc123"}"#)];
    assert!(run("transport.client-post-accept-header", &bare).is_empty());
    assert!(run("transport.client-get-accept-header", &bare).is_empty());
}

#[test]
fn a_request_whose_method_was_not_recorded_is_not_judged() {
    // No method: neither check may convict, and neither may claim to have
    // examined anything — the clause reports `not observed`, not `pass`.
    let methodless = [
        r#"{"seq":0,"direction":"client-to-server","transport":"streamable-http","kind":"http","headers":{"accept":"*/*"}}"#
            .to_owned(),
    ];
    for check in [
        "transport.client-post-accept-header",
        "transport.client-get-accept-header",
    ] {
        assert!(run(check, &methodless).is_empty(), "{check}");
        assert_eq!(examined(check, &methodless), Some(0), "{check}");
    }
}

#[test]
fn method_matching_survives_a_lowercasing_capturer() {
    let lowercased = [request(0, "post", r#"{"accept":"application/json"}"#)];
    let findings = run("transport.client-post-accept-header", &lowercased);
    assert_eq!(findings.len(), 1, "{findings:?}");
}

#[test]
fn accept_matching_ignores_order_case_and_parameters() {
    let fussy = [request(
        0,
        "POST",
        r#"{"accept":"TEXT/EVENT-STREAM;q=0.9, Application/JSON;q=1.0"}"#,
    )];
    assert!(run("transport.client-post-accept-header", &fussy).is_empty());
}

const CHECK: &str = "transport.client-messages-use-post";

fn outcome(lines: &[String]) -> (Vec<String>, Option<u32>) {
    let document = lines.join("\n");
    let parsed = events(&document);
    let context = TraceContext::new(&parsed);
    let outcome = find(CHECK).unwrap().run(&context);
    (
        outcome
            .findings
            .into_iter()
            .map(|finding| finding.detail)
            .collect(),
        outcome.subjects,
    )
}

fn http_request(seq: u64, method: Option<&str>) -> String {
    let verb = method.map_or_else(String::new, |method| format!(r#""method":"{method}","#));
    format!(
        r#"{{"seq":{seq},"direction":"client-to-server","transport":"streamable-http","kind":"http",{verb}"headers":{{}}}}"#
    )
}

fn client_message(seq: u64) -> String {
    format!(
        r#"{{"seq":{seq},"direction":"client-to-server","transport":"streamable-http","kind":"message","payload":{{"jsonrpc":"2.0","id":1,"method":"tools/list"}}}}"#
    )
}

#[test]
fn a_message_carried_by_a_post_passes() {
    let (findings, subjects) = outcome(&[http_request(0, Some("POST")), client_message(1)]);
    assert!(findings.is_empty(), "{findings:?}");
    assert_eq!(subjects, Some(1));
}

#[test]
fn a_message_carried_by_another_verb_is_a_violation() {
    let (findings, _) = outcome(&[http_request(0, Some("PUT")), client_message(1)]);
    assert_eq!(findings.len(), 1, "{findings:?}");
    assert!(findings[0].contains("PUT"), "{findings:?}");
    assert!(findings[0].contains("seq 0"), "{findings:?}");
}

#[test]
fn a_teardown_delete_carries_no_message_and_is_not_judged() {
    // The DELETE follows a conforming POST exchange and carries nothing, so
    // nothing attributes it a message it never sent.
    let (findings, subjects) =
        outcome(&[http_request(0, Some("POST")), client_message(1), http_request(2, Some("DELETE"))]);
    assert!(findings.is_empty(), "{findings:?}");
    assert_eq!(subjects, Some(1), "only the POST's message was a subject");
}

#[test]
fn a_stream_opening_get_is_not_credited_with_the_previous_posts_message() {
    // The GET resets what is carrying: a later message must not be blamed
    // on it, and it must not be excused by an earlier POST.
    let (findings, subjects) = outcome(&[
        http_request(0, Some("POST")),
        client_message(1),
        http_request(2, Some("GET")),
        client_message(3),
    ]);
    assert_eq!(findings.len(), 1, "{findings:?}");
    assert!(findings[0].contains("GET"), "{findings:?}");
    assert_eq!(subjects, Some(2));
}

#[test]
fn messages_with_no_recorded_request_are_not_judged() {
    // A message-level capture (the host's own recorder, or stdio) carries
    // no verb to judge, so the clause reports not-observed.
    let (findings, subjects) = outcome(&[client_message(0), client_message(1)]);
    assert!(findings.is_empty(), "{findings:?}");
    assert_eq!(subjects, Some(0));

    // An HTTP event whose method the capture dropped is the same case.
    let (findings, subjects) = outcome(&[http_request(0, None), client_message(1)]);
    assert!(findings.is_empty(), "{findings:?}");
    assert_eq!(subjects, Some(0));
}

#[test]
fn a_servers_reply_is_not_the_clients_message() {
    // The direction filter, pinned: a response arriving after the POST
    // that carried the request must not be counted as a second message
    // riding that POST. Without this the direction half of the scope guard
    // is unobserved, and a build that dropped it would report twice the
    // subjects it examined.
    let reply = r#"{"seq":2,"direction":"server-to-client","transport":"streamable-http","kind":"message","payload":{"jsonrpc":"2.0","id":1,"result":{"tools":[]}}}"#.to_owned();
    let (findings, subjects) = outcome(&[http_request(0, Some("POST")), client_message(1), reply]);
    assert!(findings.is_empty(), "{findings:?}");
    assert_eq!(subjects, Some(1), "only the client's message rode the POST");
}

#[test]
fn stdio_messages_are_out_of_scope() {
    let stdio = [
        r#"{"seq":0,"direction":"client-to-server","transport":"stdio","kind":"message","payload":{"jsonrpc":"2.0","id":1,"method":"tools/list"}}"#.to_owned(),
    ];
    let (findings, subjects) = outcome(&stdio);
    assert!(findings.is_empty(), "{findings:?}");
    assert_eq!(subjects, Some(0));
}

