use mcp_trace_validator::checks::find;
use mcp_trace_validator::context::TraceContext;
use mcp_trace_validator::json::{Json, Number};
use mcp_trace_validator::trace::{events_from_records, TraceEvent};

/// The `_meta` envelope a conforming `2026-07-28` request carries.
#[allow(dead_code)]
const META: &str = r#""_meta":{"io.modelcontextprotocol/protocolVersion":"2026-07-28","io.modelcontextprotocol/clientCapabilities":{}}"#;

/// The library's value for a parsed JSON value.
fn to_json(value: &serde_json::Value) -> Json {
    match value {
        serde_json::Value::Null => Json::Null,
        serde_json::Value::Bool(b) => Json::Bool(*b),
        serde_json::Value::Number(n) => {
            if let Some(u) = n.as_u64() {
                Json::Num(Number::Unsigned(u))
            } else if let Some(i) = n.as_i64() {
                Json::Num(Number::Negative(i))
            } else {
                Json::Num(Number::Decimal(n.to_string()))
            }
        }
        serde_json::Value::String(s) => Json::Str(s.clone()),
        serde_json::Value::Array(items) => Json::Array(items.iter().map(to_json).collect()),
        serde_json::Value::Object(members) => Json::Object(
            members.iter().map(|(k, v)| (k.clone(), to_json(v))).collect(),
        ),
    }
}

/// Parses a JSON Lines trace, panicking with the reason if it is malformed.
#[allow(dead_code)]
fn events(trace: &str) -> Vec<TraceEvent> {
    let records: Vec<Json> = trace
        .lines()
        .filter(|line| !line.trim().is_empty())
        .map(|line| to_json(&serde_json::from_str(line).expect("test trace line is JSON")))
        .collect();
    events_from_records(records).expect("test trace parses")
}

/// The details one check reports for a trace, in event order.
#[allow(dead_code)]
fn findings_for(check: &str, trace: &str) -> Vec<String> {
    let events = events(trace);
    let context = TraceContext::new(&events);
    find(check)
        .expect("check is registered")
        .run(&context)
        .findings
        .into_iter()
        .map(|finding| finding.detail)
        .collect()
}

/// One JSON Lines record over Streamable HTTP.
#[allow(dead_code)]
fn line(seq: u64, direction: &str, kind: &str, rest: &str) -> String {
    format!(
        r#"{{"seq":{seq},"direction":"{direction}","transport":"streamable-http","kind":"{kind}","payload":{rest}}}"#
    )
}

/// A client message event.
#[allow(dead_code)]
fn client(seq: u64, payload: &str) -> String {
    line(seq, "client-to-server", "message", payload)
}

/// A server message event.
#[allow(dead_code)]
fn server(seq: u64, payload: &str) -> String {
    line(seq, "server-to-client", "message", payload)
}

/// A client POST's HTTP event, carrying `headers` verbatim as a JSON object.
#[allow(dead_code)]
fn post(seq: u64, headers: &str) -> String {
    format!(
        r#"{{"seq":{seq},"direction":"client-to-server","transport":"streamable-http","kind":"http","headers":{headers}}}"#
    )
}

/// A server response's HTTP event with a status and no headers.
#[allow(dead_code)]
fn status(seq: u64, status: u16) -> String {
    format!(
        r#"{{"seq":{seq},"direction":"server-to-client","transport":"streamable-http","kind":"http","status":{status}}}"#
    )
}

/// A server error response for `id` carrying `code`.
#[allow(dead_code)]
fn error(seq: u64, id: &str, code: i64) -> String {
    server(
        seq,
        &format!(r#"{{"jsonrpc":"2.0","id":{id},"error":{{"code":{code},"message":"x"}}}}"#),
    )
}

/// Joins record lines into a trace document.
#[allow(dead_code)]
fn trace(lines: &[String]) -> String {
    lines.join("\n")
}
fn session(server_capabilities: &str, body: &[&str]) -> String {
    let mut lines = vec![
        format!(
            r#"{{"seq":0,"direction":"client-to-server","transport":"stdio","kind":"message","payload":{{"jsonrpc":"2.0","id":1,"method":"initialize","params":{{"protocolVersion":"2025-11-25","capabilities":{{}},"clientInfo":{{"name":"t","version":"0"}}}}}}}}"#
        ),
        format!(
            r#"{{"seq":1,"direction":"server-to-client","transport":"stdio","kind":"message","payload":{{"jsonrpc":"2.0","id":1,"result":{{"protocolVersion":"2025-11-25","capabilities":{server_capabilities},"serverInfo":{{"name":"s","version":"0"}}}}}}}}"#
        ),
        r#"{"seq":2,"direction":"client-to-server","transport":"stdio","kind":"message","payload":{"jsonrpc":"2.0","method":"notifications/initialized"}}"#.to_owned(),
    ];
    for (offset, payload) in body.iter().enumerate() {
        let seq = 3 + offset as u64;
        let direction = if offset % 2 == 0 {
            "client-to-server"
        } else {
            "server-to-client"
        };
        lines.push(format!(
            r#"{{"seq":{seq},"direction":"{direction}","transport":"stdio","kind":"message","payload":{payload}}}"#
        ));
    }
    lines.join("\n")
}

#[test]
fn name_length_boundaries_are_inclusive() {
    let ok_128 = "a".repeat(128);
    let bad_129 = "a".repeat(129);
    let trace = session(
        r#"{"tools":{}}"#,
        &[
            r#"{"jsonrpc":"2.0","id":2,"method":"tools/list"}"#,
            &format!(
                r#"{{"jsonrpc":"2.0","id":2,"result":{{"tools":[{{"name":"{ok_128}","inputSchema":{{"type":"object"}}}},{{"name":"{bad_129}","inputSchema":{{"type":"object"}}}},{{"name":"","inputSchema":{{"type":"object"}}}}]}}}}"#
            ),
        ],
    );
    let findings = findings_for("tools.name-length", &trace);
    assert_eq!(findings.len(), 2, "{findings:?}");
    assert!(findings[0].contains("129 characters"), "{findings:?}");
    assert!(findings[1].contains("0 characters"), "{findings:?}");
}

#[test]
fn charset_findings_name_the_offending_characters() {
    let trace = session(
        r#"{"tools":{}}"#,
        &[
            r#"{"jsonrpc":"2.0","id":2,"method":"tools/list"}"#,
            r#"{"jsonrpc":"2.0","id":2,"result":{"tools":[{"name":"weather lookup,v2!","inputSchema":{"type":"object"}},{"name":"admin.tools.list-v2_X","inputSchema":{"type":"object"}}]}}"#,
        ],
    );
    let findings = findings_for("tools.name-charset", &trace);
    assert_eq!(findings.len(), 1, "{findings:?}");
    assert!(findings[0].contains(r#"" ,!""#), "{findings:?}");
}

#[test]
fn capability_check_abstains_without_an_initialize_result() {
    // Truncated trace: tools traffic but no initialize result at all — the
    // declaration surface is missing, so the check must abstain, not flag.
    let trace = r#"{"seq":0,"direction":"client-to-server","transport":"stdio","kind":"message","payload":{"jsonrpc":"2.0","id":2,"method":"tools/list"}}
{"seq":1,"direction":"server-to-client","transport":"stdio","kind":"message","payload":{"jsonrpc":"2.0","id":2,"result":{"tools":[]}}}"#;
    assert!(findings_for("tools.capability-declared", trace).is_empty());
}

#[test]
fn capability_check_ignores_error_answers() {
    // A server *rejecting* tools traffic is not evidence it supports tools.
    let trace = session(
        "{}",
        &[
            r#"{"jsonrpc":"2.0","id":2,"method":"tools/list"}"#,
            r#"{"jsonrpc":"2.0","id":2,"error":{"code":-32601,"message":"Method not found"}}"#,
        ],
    );
    assert!(findings_for("tools.capability-declared", &trace).is_empty());
}

#[test]
fn output_schema_check_skips_execution_errors_and_unknown_tools() {
    let trace = session(
        r#"{"tools":{}}"#,
        &[
            r#"{"jsonrpc":"2.0","id":2,"method":"tools/list"}"#,
            r#"{"jsonrpc":"2.0","id":2,"result":{"tools":[{"name":"w","inputSchema":{"type":"object"},"outputSchema":{"type":"object"}}]}}"#,
            r#"{"jsonrpc":"2.0","id":3,"method":"tools/call","params":{"name":"w","arguments":{}}}"#,
            r#"{"jsonrpc":"2.0","id":3,"result":{"content":[{"type":"text","text":"boom"}],"isError":true}}"#,
            r#"{"jsonrpc":"2.0","id":4,"method":"tools/call","params":{"name":"other","arguments":{}}}"#,
            r#"{"jsonrpc":"2.0","id":4,"result":{"content":[{"type":"text","text":"ok"}]}}"#,
        ],
    );
    assert!(
        findings_for("tools.output-schema-structured-result", &trace).is_empty(),
        "execution errors and tools without schemas are not findings"
    );
}


#[test]
fn undeclared_tools_traffic_and_schema_defects_are_reported() {
    let trace = session(
        "{}",
        &[
            r#"{"jsonrpc":"2.0","id":2,"method":"tools/list"}"#,
            r#"{"jsonrpc":"2.0","id":2,"result":{"tools":[{"name":"a","inputSchema":null},{"name":"a","inputSchema":{}}]}}"#,
            r#"{"jsonrpc":"2.0","id":3,"method":"tools/call","params":{"name":"a"}}"#,
            r#"{"jsonrpc":"2.0","id":3,"result":{"content":[{"type":"resource","resource":{}}],"structuredContent":{}}}"#,
        ],
    );
    assert_eq!(
        findings_for("tools.capability-declared", &trace),
        [
            r#"server answered "tools/list" without declaring the tools capability"#,
            r#"server answered "tools/call" without declaring the tools capability"#,
        ]
    );
    assert_eq!(
        findings_for("tools.input-schema-object", &trace),
        [r#"tool "a" has an inputSchema that is not a JSON Schema object: null"#]
    );
    assert_eq!(
        findings_for("tools.name-unique", &trace),
        [r#"tool name "a" appears more than once in this tools/list result"#]
    );
    assert_eq!(
        findings_for("tools.embedded-resource-capability", &trace),
        [r#"tool "a" returned an embedded resource, but the server did not declare the resources capability"#]
    );
    assert_eq!(
        findings_for("tools.structured-content-text", &trace),
        [r#"tool "a" returned structuredContent without a TextContent fallback block"#]
    );
}
