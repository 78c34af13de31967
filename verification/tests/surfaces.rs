use mcp_trace_validator::checks::find;
use mcp_trace_validator::context::TraceContext;
use mcp_trace_validator::json::{Json, Number};
use mcp_trace_validator::trace::{events_from_records, TraceEvent};

/// The `_meta` envelope a conforming `2026-07-28` request carries.
#[allow(dead_code)]
const META: &str = r#""_meta":{"io.modelcontextprotocol/protocolVersion":"2026-07-28","io.modelcontextprotocol/clientCapabilities":{}}"#;

/// The library's value for a parsed JSON value.
fn to_json(value: &serde_json::Value) -> Json {
    match value {
        serde_json::Value::Null => Json::Null,
        serde_json::Value::Bool(b) => Json::Bool(*b),
        serde_json::Value::Number(n) => {
            if let Some(u) = n.as_u64() {
                Json::Num(Number::Unsigned(u))
            } else if let Some(i) = n.as_i64() {
                Json::Num(Number::Negative(i))
            } else {
                Json::Num(Number::Decimal(n.to_string()))
            }
        }
        serde_json::Value::String(s) => Json::Str(s.clone()),
        serde_json::Value::Array(items) => Json::Array(items.iter().map(to_json).collect()),
        serde_json::Value::Object(members) => Json::Object(
            members.iter().map(|(k, v)| (k.clone(), to_json(v))).collect(),
        ),
    }
}

/// Parses a JSON Lines trace, panicking with the reason if it is malformed.
#[allow(dead_code)]
fn events(trace: &str) -> Vec<TraceEvent> {
    let records: Vec<Json> = trace
        .lines()
        .filter(|line| !line.trim().is_empty())
        .map(|line| to_json(&serde_json::from_str(line).expect("test trace line is JSON")))
        .collect();
    events_from_records(records).expect("test trace parses")
}

/// The details one check reports for a trace, in event order.
#[allow(dead_code)]
fn findings_for(check: &str, trace: &str) -> Vec<String> {
    let events = events(trace);
    let context = TraceContext::new(&events);
    find(check)
        .expect("check is registered")
        .run(&context)
        .findings
        .into_iter()
        .map(|finding| finding.detail)
        .collect()
}

/// One JSON Lines record over Streamable HTTP.
#[allow(dead_code)]
fn line(seq: u64, direction: &str, kind: &str, rest: &str) -> String {
    format!(
        r#"{{"seq":{seq},"direction":"{direction}","transport":"streamable-http","kind":"{kind}","payload":{rest}}}"#
    )
}

/// A client message event.
#[allow(dead_code)]
fn client(seq: u64, payload: &str) -> String {
    line(seq, "client-to-server", "message", payload)
}

/// A server message event.
#[allow(dead_code)]
fn server(seq: u64, payload: &str) -> String {
    line(seq, "server-to-client", "message", payload)
}

/// A client POST's HTTP event, carrying `headers` verbatim as a JSON object.
#[allow(dead_code)]
fn post(seq: u64, headers: &str) -> String {
    format!(
        r#"{{"seq":{seq},"direction":"client-to-server","transport":"streamable-http","kind":"http","headers":{headers}}}"#
    )
}

/// A server response's HTTP event with a status and no headers.
#[allow(dead_code)]
fn status(seq: u64, status: u16) -> String {
    format!(
        r#"{{"seq":{seq},"direction":"server-to-client","transport":"streamable-http","kind":"http","status":{status}}}"#
    )
}

/// A server error response for `id` carrying `code`.
#[allow(dead_code)]
fn error(seq: u64, id: &str, code: i64) -> String {
    server(
        seq,
        &format!(r#"{{"jsonrpc":"2.0","id":{id},"error":{{"code":{code},"message":"x"}}}}"#),
    )
}

/// Joins record lines into a trace document.
#[allow(dead_code)]
fn trace(lines: &[String]) -> String {
    lines.join("\n")
}

use mcp_trace_validator::checks::all;
use std::collections::HashSet;

const CAPABILITY_CHECKS: [&str; 7] = [
    "tools.capability-declared",
    "tools.embedded-resource-capability",
    "resources.capability-declared",
    "prompts.capability-declared",
    "logging.capability-declared",
    "completion.capability-declared",
    "lifecycle.negotiated-capabilities-only",
];

/// A session exercising every capability-gated feature, optionally preceded
/// by a handshake declaring all of them.
fn session(handshake: bool) -> String {
    let mut lines: Vec<String> = Vec::new();
    if handshake {
        lines.push(r#"{"seq":0,"direction":"client-to-server","transport":"stdio","kind":"message","payload":{"jsonrpc":"2.0","id":1,"method":"initialize","params":{"protocolVersion":"2025-11-25","capabilities":{},"clientInfo":{"name":"t","version":"0"}}}}"#.to_owned());
        lines.push(r#"{"seq":1,"direction":"server-to-client","transport":"stdio","kind":"message","payload":{"jsonrpc":"2.0","id":1,"result":{"protocolVersion":"2025-11-25","capabilities":{"tools":{},"resources":{},"prompts":{},"logging":{},"completions":{}},"serverInfo":{"name":"s","version":"0"}}}}"#.to_owned());
    }
    for line in [
        r#"{"seq":2,"direction":"client-to-server","transport":"stdio","kind":"message","payload":{"jsonrpc":"2.0","id":2,"method":"tools/list"}}"#,
        r#"{"seq":3,"direction":"server-to-client","transport":"stdio","kind":"message","payload":{"jsonrpc":"2.0","id":2,"result":{"tools":[]}}}"#,
        r#"{"seq":4,"direction":"client-to-server","transport":"stdio","kind":"message","payload":{"jsonrpc":"2.0","id":3,"method":"resources/read","params":{"uri":"file:///a"}}}"#,
        r#"{"seq":5,"direction":"server-to-client","transport":"stdio","kind":"message","payload":{"jsonrpc":"2.0","id":3,"result":{"contents":[]}}}"#,
        r#"{"seq":6,"direction":"client-to-server","transport":"stdio","kind":"message","payload":{"jsonrpc":"2.0","id":4,"method":"prompts/get","params":{"name":"p"}}}"#,
        r#"{"seq":7,"direction":"server-to-client","transport":"stdio","kind":"message","payload":{"jsonrpc":"2.0","id":4,"result":{"messages":[]}}}"#,
        r#"{"seq":8,"direction":"client-to-server","transport":"stdio","kind":"message","payload":{"jsonrpc":"2.0","id":5,"method":"completion/complete","params":{}}}"#,
        r#"{"seq":9,"direction":"server-to-client","transport":"stdio","kind":"message","payload":{"jsonrpc":"2.0","id":5,"result":{"completion":{"values":[]}}}}"#,
        r#"{"seq":10,"direction":"server-to-client","transport":"stdio","kind":"message","payload":{"jsonrpc":"2.0","method":"notifications/message","params":{"level":"info","data":"x"}}}"#,
        r#"{"seq":11,"direction":"client-to-server","transport":"stdio","kind":"message","payload":{"jsonrpc":"2.0","id":6,"method":"tools/call","params":{"name":"t"}}}"#,
        r#"{"seq":12,"direction":"server-to-client","transport":"stdio","kind":"message","payload":{"jsonrpc":"2.0","id":6,"result":{"content":[{"type":"resource","resource":{"uri":"file:///a","text":"x"}}]}}}"#,
    ] {
        lines.push(line.to_owned());
    }
    lines.join("\n")
}

fn subjects_and_findings(check: &str, trace: &str) -> (Option<u32>, usize) {
    let events = events(trace);
    let context = TraceContext::new(&events);
    let outcome = find(check).unwrap().run(&context);
    (outcome.subjects, outcome.findings.len())
}

/// The rule [`Declaration::Unknowable`] exists for, over every check that
/// reads one: a session whose declarations are not in the trace earns no
/// verdict on whether it declared them.
///
/// This asserts on the *subject count*, not on findings, and that is the
/// whole point. An abstention and a pass both have no findings, so
/// `findings.is_empty()` — which is what each area's own tests assert —
/// cannot tell them apart. Eight of these callers used to read the
/// declaration as "present unless explicitly denied"; every one still
/// produced no findings here, and every one reported a green row on a
/// session that never carried a declaration at all.
#[test]
fn no_declaration_surface_means_no_verdict() {
    let trace = session(false);
    for check in CAPABILITY_CHECKS {
        let (subjects, findings) = subjects_and_findings(check, &trace);
        assert_eq!(
            subjects, Some(0),
            "{check} counted a subject in a session with no initialize result, \
             so the clause it backs reports a pass it cannot support"
        );
        assert_eq!(findings, 0, "{check} judged an unjudgeable session");
    }
}

/// The other half, without which the abstention above could be satisfied by
/// a check that never judges anything: the same traffic, behind a handshake,
/// is judged.
#[test]
fn a_declaration_surface_is_judged() {
    let trace = session(true);
    for check in CAPABILITY_CHECKS {
        let (subjects, findings) = subjects_and_findings(check, &trace);
        assert!(subjects > Some(0), "{check} found nothing to judge");
        assert_eq!(
            findings, 0,
            "{check} faulted a session that declared everything it used"
        );
    }
}

#[test]
fn a_present_surface_that_withholds_the_capability_is_a_violation() {
    // The arm that must stay distinguishable from the abstention: the
    // handshake is there and declares nothing.
    let trace = session(true).replace(
        r#""capabilities":{"tools":{},"resources":{},"prompts":{},"logging":{},"completions":{}}"#,
        r#""capabilities":{}"#,
    );
    for check in CAPABILITY_CHECKS {
        let (subjects, findings) = subjects_and_findings(check, &trace);
        assert!(subjects > Some(0), "{check} found nothing to judge");
        assert!(findings > 0, "{check} excused an undeclared capability");
    }
}


#[test]
fn check_ids_are_unique() {
    let mut seen = HashSet::new();
    for check in all() {
        assert!(seen.insert(check.id), "duplicate check id {}", check.id);
    }
}
