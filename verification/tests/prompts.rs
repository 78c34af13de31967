use mcp_trace_validator::checks::find;
use mcp_trace_validator::context::TraceContext;
use mcp_trace_validator::json::{Json, Number};
use mcp_trace_validator::trace::{events_from_records, TraceEvent};

/// The `_meta` envelope a conforming `2026-07-28` request carries.
#[allow(dead_code)]
const META: &str = r#""_meta":{"io.modelcontextprotocol/protocolVersion":"2026-07-28","io.modelcontextprotocol/clientCapabilities":{}}"#;

/// The library's value for a parsed JSON value.
fn to_json(value: &serde_json::Value) -> Json {
    match value {
        serde_json::Value::Null => Json::Null,
        serde_json::Value::Bool(b) => Json::Bool(*b),
        serde_json::Value::Number(n) => {
            if let Some(u) = n.as_u64() {
                Json::Num(Number::Unsigned(u))
            } else if let Some(i) = n.as_i64() {
                Json::Num(Number::Negative(i))
            } else {
                Json::Num(Number::Decimal(n.to_string()))
            }
        }
        serde_json::Value::String(s) => Json::Str(s.clone()),
        serde_json::Value::Array(items) => Json::Array(items.iter().map(to_json).collect()),
        serde_json::Value::Object(members) => Json::Object(
            members.iter().map(|(k, v)| (k.clone(), to_json(v))).collect(),
        ),
    }
}

/// Parses a JSON Lines trace, panicking with the reason if it is malformed.
#[allow(dead_code)]
fn events(trace: &str) -> Vec<TraceEvent> {
    let records: Vec<Json> = trace
        .lines()
        .filter(|line| !line.trim().is_empty())
        .map(|line| to_json(&serde_json::from_str(line).expect("test trace line is JSON")))
        .collect();
    events_from_records(records).expect("test trace parses")
}

/// The details one check reports for a trace, in event order.
#[allow(dead_code)]
fn findings_for(check: &str, trace: &str) -> Vec<String> {
    let events = events(trace);
    let context = TraceContext::new(&events);
    find(check)
        .expect("check is registered")
        .run(&context)
        .findings
        .into_iter()
        .map(|finding| finding.detail)
        .collect()
}

/// One JSON Lines record over Streamable HTTP.
#[allow(dead_code)]
fn line(seq: u64, direction: &str, kind: &str, rest: &str) -> String {
    format!(
        r#"{{"seq":{seq},"direction":"{direction}","transport":"streamable-http","kind":"{kind}","payload":{rest}}}"#
    )
}

/// A client message event.
#[allow(dead_code)]
fn client(seq: u64, payload: &str) -> String {
    line(seq, "client-to-server", "message", payload)
}

/// A server message event.
#[allow(dead_code)]
fn server(seq: u64, payload: &str) -> String {
    line(seq, "server-to-client", "message", payload)
}

/// A client POST's HTTP event, carrying `headers` verbatim as a JSON object.
#[allow(dead_code)]
fn post(seq: u64, headers: &str) -> String {
    format!(
        r#"{{"seq":{seq},"direction":"client-to-server","transport":"streamable-http","kind":"http","headers":{headers}}}"#
    )
}

/// A server response's HTTP event with a status and no headers.
#[allow(dead_code)]
fn status(seq: u64, status: u16) -> String {
    format!(
        r#"{{"seq":{seq},"direction":"server-to-client","transport":"streamable-http","kind":"http","status":{status}}}"#
    )
}

/// A server error response for `id` carrying `code`.
#[allow(dead_code)]
fn error(seq: u64, id: &str, code: i64) -> String {
    server(
        seq,
        &format!(r#"{{"jsonrpc":"2.0","id":{id},"error":{{"code":{code},"message":"x"}}}}"#),
    )
}

/// Joins record lines into a trace document.
#[allow(dead_code)]
fn trace(lines: &[String]) -> String {
    lines.join("\n")
}
const HANDSHAKE: &str = r#"{"seq":0,"direction":"client-to-server","transport":"stdio","kind":"message","payload":{"jsonrpc":"2.0","id":1,"method":"initialize","params":{"protocolVersion":"2025-11-25","capabilities":{},"clientInfo":{"name":"t","version":"0"}}}}
{"seq":1,"direction":"server-to-client","transport":"stdio","kind":"message","payload":{"jsonrpc":"2.0","id":1,"result":{"protocolVersion":"2025-11-25","capabilities":{"prompts":{}},"serverInfo":{"name":"s","version":"0"}}}}
{"seq":2,"direction":"client-to-server","transport":"stdio","kind":"message","payload":{"jsonrpc":"2.0","method":"notifications/initialized"}}"#;

fn get_prompt_with_content(content: &str) -> String {
    let request = r#"{"seq":3,"direction":"client-to-server","transport":"stdio","kind":"message","payload":{"jsonrpc":"2.0","id":2,"method":"prompts/get","params":{"name":"p"}}}"#;
    let result = format!(
        r#"{{"seq":4,"direction":"server-to-client","transport":"stdio","kind":"message","payload":{{"jsonrpc":"2.0","id":2,"result":{{"messages":[{{"role":"user","content":{content}}}]}}}}}}"#
    );
    format!("{HANDSHAKE}\n{request}\n{result}")
}

/// Builds a session that lists `review` with a required `diff` argument, then
/// issues `prompts/get` with `arguments` and gets `response` back.
fn listed_then_called(arguments: &str, response: &str) -> String {
    let list = r#"{"seq":3,"direction":"client-to-server","transport":"stdio","kind":"message","payload":{"jsonrpc":"2.0","id":2,"method":"prompts/list"}}
{"seq":4,"direction":"server-to-client","transport":"stdio","kind":"message","payload":{"jsonrpc":"2.0","id":2,"result":{"prompts":[{"name":"review","arguments":[{"name":"diff","required":true},{"name":"tone","required":false}]}]}}}"#;
    let get = format!(
        r#"{{"seq":5,"direction":"client-to-server","transport":"stdio","kind":"message","payload":{{"jsonrpc":"2.0","id":3,"method":"prompts/get","params":{{"name":"review","arguments":{arguments}}}}}}}"#
    );
    format!("{HANDSHAKE}\n{list}\n{get}\n{response}")
}

const RESULT: &str = r#"{"seq":6,"direction":"server-to-client","transport":"stdio","kind":"message","payload":{"jsonrpc":"2.0","id":3,"result":{"messages":[]}}}"#;
const ERROR: &str = r#"{"seq":6,"direction":"server-to-client","transport":"stdio","kind":"message","payload":{"jsonrpc":"2.0","id":3,"error":{"code":-32602,"message":"missing required argument: diff"}}}"#;

#[test]
fn serving_a_result_despite_a_missing_required_argument_is_a_finding() {
    let trace = listed_then_called(r#"{"tone":"terse"}"#, RESULT);
    let findings = findings_for("prompts.arguments-validated", &trace);
    assert_eq!(findings.len(), 1, "{findings:?}");
    assert!(findings[0].contains("\"diff\""), "{findings:?}");
    assert!(findings[0].contains("review"), "{findings:?}");
}

#[test]
fn supplying_the_required_argument_is_clean() {
    let trace = listed_then_called(r#"{"diff":"--- a\n+++ b"}"#, RESULT);
    assert!(findings_for("prompts.arguments-validated", &trace).is_empty());
}

#[test]
fn an_omitted_optional_argument_is_not_a_finding() {
    // `tone` is declared `required: false`; only `diff` may be demanded.
    let trace = listed_then_called(r#"{"diff":"d"}"#, RESULT);
    assert!(findings_for("prompts.arguments-validated", &trace).is_empty());
}

#[test]
fn rejecting_the_call_satisfies_the_clause() {
    // The server *did* validate — an error response is the compliant answer,
    // so the check must stay silent even though the argument was missing.
    let trace = listed_then_called(r#"{"tone":"terse"}"#, ERROR);
    assert!(findings_for("prompts.arguments-validated", &trace).is_empty());
}

#[test]
fn a_prompt_never_listed_is_not_judged() {
    // Without an observed declaration there is no ground truth, so a
    // `prompts/get` for an unlisted prompt is outside the check's reach.
    let get = r#"{"seq":3,"direction":"client-to-server","transport":"stdio","kind":"message","payload":{"jsonrpc":"2.0","id":2,"method":"prompts/get","params":{"name":"unlisted"}}}"#;
    let result = r#"{"seq":4,"direction":"server-to-client","transport":"stdio","kind":"message","payload":{"jsonrpc":"2.0","id":2,"result":{"messages":[]}}}"#;
    let trace = format!("{HANDSHAKE}\n{get}\n{result}");
    assert!(findings_for("prompts.arguments-validated", &trace).is_empty());
}

#[test]
fn a_missing_arguments_object_entirely_is_still_a_finding() {
    // Omitting `arguments` altogether must read the same as omitting the
    // required key inside it.
    let get = r#"{"seq":5,"direction":"client-to-server","transport":"stdio","kind":"message","payload":{"jsonrpc":"2.0","id":3,"method":"prompts/get","params":{"name":"review"}}}"#;
    let list = r#"{"seq":3,"direction":"client-to-server","transport":"stdio","kind":"message","payload":{"jsonrpc":"2.0","id":2,"method":"prompts/list"}}
{"seq":4,"direction":"server-to-client","transport":"stdio","kind":"message","payload":{"jsonrpc":"2.0","id":2,"result":{"prompts":[{"name":"review","arguments":[{"name":"diff","required":true}]}]}}}"#;
    let trace = format!("{HANDSHAKE}\n{list}\n{get}\n{RESULT}");
    assert_eq!(findings_for("prompts.arguments-validated", &trace).len(), 1);
}

#[test]
fn image_and_audio_checks_are_type_scoped() {
    // A bad *audio* item must not produce *image* findings, and vice versa.
    let trace = get_prompt_with_content(
        r#"{"type":"audio","data":"not base64!","mimeType":"audio/wav"}"#,
    );
    assert!(findings_for("prompts.image-content-encoding", &trace).is_empty());
    let findings = findings_for("prompts.audio-content-encoding", &trace);
    assert_eq!(findings.len(), 1, "{findings:?}");
    assert!(findings[0].contains("audio content data"), "{findings:?}");
}

#[test]
fn mime_type_must_be_type_slash_subtype() {
    for (mime, expect_finding) in [
        (r#""image/png""#, false),
        (r#""image/""#, true),
        (r#""png""#, true),
        ("42", true),
    ] {
        let trace = get_prompt_with_content(&format!(
            r#"{{"type":"image","data":"QUJDRA==","mimeType":{mime}}}"#
        ));
        let findings = findings_for("prompts.image-content-encoding", &trace);
        assert_eq!(!findings.is_empty(), expect_finding, "{mime}: {findings:?}");
    }
}

#[test]
fn embedded_resource_shape_flags_each_defect_once() {
    let trace = get_prompt_with_content(
        r#"{"type":"resource","resource":{"uri":"no scheme","text":"x","blob":"QUJDRA=="}}"#,
    );
    let findings = findings_for("prompts.embedded-resource-shape", &trace);
    // Bad URI, missing mimeType, and text+blob together: three findings.
    assert_eq!(findings.len(), 3, "{findings:?}");
}

#[test]
fn well_formed_embedded_resource_passes() {
    let trace = get_prompt_with_content(
        r#"{"type":"resource","resource":{"uri":"file:///a.txt","mimeType":"text/plain","text":"hello"}}"#,
    );
    assert!(findings_for("prompts.embedded-resource-shape", &trace).is_empty());
}

#[test]
fn blob_only_embedded_resources_hinge_on_base64_validity() {
    // Valid blob, no text: well-formed, zero findings.
    let valid = get_prompt_with_content(
        r#"{"type":"resource","resource":{"uri":"file:///a.png","mimeType":"image/png","blob":"QUJDRA=="}}"#,
    );
    assert!(findings_for("prompts.embedded-resource-shape", &valid).is_empty());

    // Invalid blob, no text: exactly the base64 finding.
    let invalid = get_prompt_with_content(
        r#"{"type":"resource","resource":{"uri":"file:///a.png","mimeType":"image/png","blob":"not base64!"}}"#,
    );
    let findings = findings_for("prompts.embedded-resource-shape", &invalid);
    assert_eq!(findings.len(), 1, "{findings:?}");
    assert!(findings[0].contains("not valid base64"), "{findings:?}");
}


#[test]
fn serving_prompts_without_the_capability_is_reported() {
    let trace = HANDSHAKE.replace(r#""capabilities":{"prompts":{}}"#, r#""capabilities":{}"#);
    let trace = format!(
        "{trace}\n{}\n{}",
        r#"{"seq":3,"direction":"client-to-server","transport":"stdio","kind":"message","payload":{"jsonrpc":"2.0","id":2,"method":"prompts/list"}}"#,
        r#"{"seq":4,"direction":"server-to-client","transport":"stdio","kind":"message","payload":{"jsonrpc":"2.0","id":2,"result":{"prompts":[]}}}"#
    );
    assert_eq!(
        findings_for("prompts.capability-declared", &trace),
        [r#"server answered "prompts/list" without declaring the prompts capability"#]
    );
}

#[test]
fn the_missing_arguments_are_named_in_the_finding() {
    let trace = listed_then_called(r#"{}"#, RESULT);
    assert_eq!(
        findings_for("prompts.arguments-validated", &trace),
        [r#"server returned a result for prompts/get "review" although the request omitted the required argument(s) ["diff"] it declared in prompts/list"#]
    );
}
