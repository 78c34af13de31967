# mcp-trace-validator

A verified validator for recorded Model Context Protocol (MCP) sessions. A
trace of JSON-RPC messages, HTTP frames and transport events is judged against
the requirements of a protocol revision, one row per requirement: pass, fail,
warn, excluded, unsupported, not applicable or not observed.

Layout:

- `src/` — the library, verified with Verus. Every check states, as a
  postcondition, the events at which it reports; the engine states what each
  row of a report holds and that the totals count the rows.
- `tests/` — executable tests over concrete traces.
- `app/` — reading JSON Lines documents with `serde_json` into the library's
  `Json` values, and validating them.
