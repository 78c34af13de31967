//! The negotiated-capability usage check (`LIFE-009`): "Both parties MUST:
//! Only use capabilities that were successfully negotiated". A method table
//! maps each capability-gated request and notification to the declaration its
//! use depends on. The check abstains when the trace carries no `initialize`
//! result: it judges only sessions whose negotiation outcome is visible.

use vstd::prelude::*;
use crate::checks::after_counting;
use crate::checks::sites::{tally, xtally, lemma_tally_take, lemma_xtally_take, lemma_tally_all, lemma_xtally_all};
use crate::checks::{FindingSink, entry_seqs};
use crate::checks::sites::{sites, lemma_sites_take, lemma_sites_all};
use crate::checks::support::{Declaration, server_capability, client_capability, server_declaration,
    client_declaration, path_view};
use crate::context::TraceContext;
use crate::message::{MessageKind, Tag, spec_tag};
use crate::text::{owned, push_text, text_eq, debug_text};
use crate::trace::{Direction, TraceEvent};

verus! {

/// The capability a method sent in direction `d` rides on: whether the server
/// (else the client) declares it, and its path.
pub open spec fn gate(d: Direction, m: Seq<char>) -> Option<(bool, Seq<Seq<char>>)> {
    if d == Direction::ClientToServer && m == "tools/list"@ {
        Some((true, seq!["tools"@]))
    } else if d == Direction::ClientToServer && m == "tools/call"@ {
        Some((true, seq!["tools"@]))
    } else if d == Direction::ClientToServer && m == "resources/list"@ {
        Some((true, seq!["resources"@]))
    } else if d == Direction::ClientToServer && m == "resources/read"@ {
        Some((true, seq!["resources"@]))
    } else if d == Direction::ClientToServer && m == "resources/templates/list"@ {
        Some((true, seq!["resources"@]))
    } else if d == Direction::ClientToServer && m == "resources/subscribe"@ {
        Some((true, seq!["resources"@, "subscribe"@]))
    } else if d == Direction::ClientToServer && m == "resources/unsubscribe"@ {
        Some((true, seq!["resources"@, "subscribe"@]))
    } else if d == Direction::ClientToServer && m == "prompts/list"@ {
        Some((true, seq!["prompts"@]))
    } else if d == Direction::ClientToServer && m == "prompts/get"@ {
        Some((true, seq!["prompts"@]))
    } else if d == Direction::ClientToServer && m == "completion/complete"@ {
        Some((true, seq!["completions"@]))
    } else if d == Direction::ClientToServer && m == "logging/setLevel"@ {
        Some((true, seq!["logging"@]))
    } else if d == Direction::ClientToServer && m == "notifications/roots/list_changed"@ {
        Some((false, seq!["roots"@, "listChanged"@]))
    } else if d == Direction::ServerToClient && m == "notifications/tools/list_changed"@ {
        Some((true, seq!["tools"@, "listChanged"@]))
    } else if d == Direction::ServerToClient && m == "notifications/resources/list_changed"@ {
        Some((true, seq!["resources"@, "listChanged"@]))
    } else if d == Direction::ServerToClient && m == "notifications/resources/updated"@ {
        Some((true, seq!["resources"@, "subscribe"@]))
    } else if d == Direction::ServerToClient && m == "notifications/prompts/list_changed"@ {
        Some((true, seq!["prompts"@, "listChanged"@]))
    } else if d == Direction::ServerToClient && m == "notifications/message"@ {
        Some((true, seq!["logging"@]))
    } else if d == Direction::ServerToClient && m == "sampling/createMessage"@ {
        Some((false, seq!["sampling"@]))
    } else if d == Direction::ServerToClient && m == "elicitation/create"@ {
        Some((false, seq!["elicitation"@]))
    } else if d == Direction::ServerToClient && m == "roots/list"@ {
        Some((false, seq!["roots"@]))
    } else {
        None
    }
}

fn gate_of(direction: Direction, method: &str) -> (r: Option<(bool, Vec<&'static str>)>)
    ensures
        match r {
            Some((server, path)) => gate(direction, method@) == Some((server, path_view(path@))),
            None => gate(direction, method@) is None,
        },
{
    let r =     if direction == Direction::ClientToServer && text_eq(method, "tools/list") {
        Some((true, vec!["tools"]))
    } else if direction == Direction::ClientToServer && text_eq(method, "tools/call") {
        Some((true, vec!["tools"]))
    } else if direction == Direction::ClientToServer && text_eq(method, "resources/list") {
        Some((true, vec!["resources"]))
    } else if direction == Direction::ClientToServer && text_eq(method, "resources/read") {
        Some((true, vec!["resources"]))
    } else if direction == Direction::ClientToServer && text_eq(method, "resources/templates/list") {
        Some((true, vec!["resources"]))
    } else if direction == Direction::ClientToServer && text_eq(method, "resources/subscribe") {
        Some((true, vec!["resources", "subscribe"]))
    } else if direction == Direction::ClientToServer && text_eq(method, "resources/unsubscribe") {
        Some((true, vec!["resources", "subscribe"]))
    } else if direction == Direction::ClientToServer && text_eq(method, "prompts/list") {
        Some((true, vec!["prompts"]))
    } else if direction == Direction::ClientToServer && text_eq(method, "prompts/get") {
        Some((true, vec!["prompts"]))
    } else if direction == Direction::ClientToServer && text_eq(method, "completion/complete") {
        Some((true, vec!["completions"]))
    } else if direction == Direction::ClientToServer && text_eq(method, "logging/setLevel") {
        Some((true, vec!["logging"]))
    } else if direction == Direction::ClientToServer && text_eq(method, "notifications/roots/list_changed") {
        Some((false, vec!["roots", "listChanged"]))
    } else if direction == Direction::ServerToClient && text_eq(method, "notifications/tools/list_changed") {
        Some((true, vec!["tools", "listChanged"]))
    } else if direction == Direction::ServerToClient && text_eq(method, "notifications/resources/list_changed") {
        Some((true, vec!["resources", "listChanged"]))
    } else if direction == Direction::ServerToClient && text_eq(method, "notifications/resources/updated") {
        Some((true, vec!["resources", "subscribe"]))
    } else if direction == Direction::ServerToClient && text_eq(method, "notifications/prompts/list_changed") {
        Some((true, vec!["prompts", "listChanged"]))
    } else if direction == Direction::ServerToClient && text_eq(method, "notifications/message") {
        Some((true, vec!["logging"]))
    } else if direction == Direction::ServerToClient && text_eq(method, "sampling/createMessage") {
        Some((false, vec!["sampling"]))
    } else if direction == Direction::ServerToClient && text_eq(method, "elicitation/create") {
        Some((false, vec!["elicitation"]))
    } else if direction == Direction::ServerToClient && text_eq(method, "roots/list") {
        Some((false, vec!["roots"]))
    } else {
        None
    };
    proof {
        if r is Some {
            assert(path_view(r.unwrap().1@) =~= gate(direction, method@).unwrap().1);
        }
    }
    r
}

/// The method of a request or notification.
pub open spec fn sent_method(e: TraceEvent) -> Option<Seq<char>> {
    match e.payload() {
        Some(p) => if spec_tag(p) == Tag::Request || spec_tag(p) == Tag::Notification {
            p.at("method"@).unwrap().text()
        } else {
            None
        },
        None => None,
    }
}

/// A gated message whose capability the session withheld.
pub open spec fn ungated_site(events: Seq<TraceEvent>, e: TraceEvent) -> Seq<Option<u64>> {
    match sent_method(e) {
        Some(m) => match gate(e.direction, m) {
            Some((server, path)) => {
                let declared = if server { server_declaration(events, path) } else { client_declaration(events, path) };
                if declared == Declaration::Withheld { seq![Some(e.seq)] } else { Seq::empty() }
            },
            None => Seq::empty(),
        },
        None => Seq::empty(),
    }
}

/// The table of gated methods, read off `gate` one row at a time.
proof fn lemma_gate_row(d: Direction, m: Seq<char>, server: bool, path: Seq<Seq<char>>)
    requires
        (d == Direction::ClientToServer && m == "tools/list"@ && server && path == seq!["tools"@])
            || (d == Direction::ClientToServer && m == "tools/call"@ && server && path == seq!["tools"@])
            || (d == Direction::ClientToServer && m == "resources/list"@ && server && path == seq!["resources"@])
            || (d == Direction::ClientToServer && m == "resources/read"@ && server && path == seq!["resources"@])
            || (d == Direction::ClientToServer && m == "resources/templates/list"@ && server && path == seq!["resources"@])
            || (d == Direction::ClientToServer && m == "resources/subscribe"@ && server && path == seq!["resources"@, "subscribe"@])
            || (d == Direction::ClientToServer && m == "resources/unsubscribe"@ && server && path == seq!["resources"@, "subscribe"@])
            || (d == Direction::ClientToServer && m == "prompts/list"@ && server && path == seq!["prompts"@])
            || (d == Direction::ClientToServer && m == "prompts/get"@ && server && path == seq!["prompts"@])
            || (d == Direction::ClientToServer && m == "completion/complete"@ && server && path == seq!["completions"@])
            || (d == Direction::ClientToServer && m == "logging/setLevel"@ && server && path == seq!["logging"@])
            || (d == Direction::ClientToServer && m == "notifications/roots/list_changed"@ && !server && path == seq!["roots"@, "listChanged"@])
            || (d == Direction::ServerToClient && m == "notifications/tools/list_changed"@ && server && path == seq!["tools"@, "listChanged"@])
            || (d == Direction::ServerToClient && m == "notifications/resources/list_changed"@ && server && path == seq!["resources"@, "listChanged"@])
            || (d == Direction::ServerToClient && m == "notifications/resources/updated"@ && server && path == seq!["resources"@, "subscribe"@])
            || (d == Direction::ServerToClient && m == "notifications/prompts/list_changed"@ && server && path == seq!["prompts"@, "listChanged"@])
            || (d == Direction::ServerToClient && m == "notifications/message"@ && server && path == seq!["logging"@])
            || (d == Direction::ServerToClient && m == "sampling/createMessage"@ && !server && path == seq!["sampling"@])
            || (d == Direction::ServerToClient && m == "elicitation/create"@ && !server && path == seq!["elicitation"@])
            || (d == Direction::ServerToClient && m == "roots/list"@ && !server && path == seq!["roots"@]),
    ensures
        gate(d, m) == Some((server, path)),
{
    if d == Direction::ClientToServer && m == "tools/list"@ {
        reveal_strlit("tools/list");
        reveal_strlit("tools/call");
        assert("tools/list"@[6] != "tools/call"@[6]);
        assert("tools/list"@ != "tools/call"@);
        reveal_strlit("resources/list");
        assert("tools/list"@.len() == 10 && "resources/list"@.len() == 14);
        assert("tools/list"@ != "resources/list"@);
        reveal_strlit("resources/read");
        assert("tools/list"@.len() == 10 && "resources/read"@.len() == 14);
        assert("tools/list"@ != "resources/read"@);
        reveal_strlit("resources/templates/list");
        assert("tools/list"@.len() == 10 && "resources/templates/list"@.len() == 24);
        assert("tools/list"@ != "resources/templates/list"@);
        reveal_strlit("resources/subscribe");
        assert("tools/list"@.len() == 10 && "resources/subscribe"@.len() == 19);
        assert("tools/list"@ != "resources/subscribe"@);
        reveal_strlit("resources/unsubscribe");
        assert("tools/list"@.len() == 10 && "resources/unsubscribe"@.len() == 21);
        assert("tools/list"@ != "resources/unsubscribe"@);
        reveal_strlit("prompts/list");
        assert("tools/list"@.len() == 10 && "prompts/list"@.len() == 12);
        assert("tools/list"@ != "prompts/list"@);
        reveal_strlit("prompts/get");
        assert("tools/list"@.len() == 10 && "prompts/get"@.len() == 11);
        assert("tools/list"@ != "prompts/get"@);
        reveal_strlit("completion/complete");
        assert("tools/list"@.len() == 10 && "completion/complete"@.len() == 19);
        assert("tools/list"@ != "completion/complete"@);
        reveal_strlit("logging/setLevel");
        assert("tools/list"@.len() == 10 && "logging/setLevel"@.len() == 16);
        assert("tools/list"@ != "logging/setLevel"@);
        reveal_strlit("notifications/roots/list_changed");
        assert("tools/list"@.len() == 10 && "notifications/roots/list_changed"@.len() == 32);
        assert("tools/list"@ != "notifications/roots/list_changed"@);
    } else if d == Direction::ClientToServer && m == "tools/call"@ {
        reveal_strlit("tools/call");
        reveal_strlit("tools/list");
        assert("tools/call"@[6] != "tools/list"@[6]);
        assert("tools/call"@ != "tools/list"@);
        reveal_strlit("resources/list");
        assert("tools/call"@.len() == 10 && "resources/list"@.len() == 14);
        assert("tools/call"@ != "resources/list"@);
        reveal_strlit("resources/read");
        assert("tools/call"@.len() == 10 && "resources/read"@.len() == 14);
        assert("tools/call"@ != "resources/read"@);
        reveal_strlit("resources/templates/list");
        assert("tools/call"@.len() == 10 && "resources/templates/list"@.len() == 24);
        assert("tools/call"@ != "resources/templates/list"@);
        reveal_strlit("resources/subscribe");
        assert("tools/call"@.len() == 10 && "resources/subscribe"@.len() == 19);
        assert("tools/call"@ != "resources/subscribe"@);
        reveal_strlit("resources/unsubscribe");
        assert("tools/call"@.len() == 10 && "resources/unsubscribe"@.len() == 21);
        assert("tools/call"@ != "resources/unsubscribe"@);
        reveal_strlit("prompts/list");
        assert("tools/call"@.len() == 10 && "prompts/list"@.len() == 12);
        assert("tools/call"@ != "prompts/list"@);
        reveal_strlit("prompts/get");
        assert("tools/call"@.len() == 10 && "prompts/get"@.len() == 11);
        assert("tools/call"@ != "prompts/get"@);
        reveal_strlit("completion/complete");
        assert("tools/call"@.len() == 10 && "completion/complete"@.len() == 19);
        assert("tools/call"@ != "completion/complete"@);
        reveal_strlit("logging/setLevel");
        assert("tools/call"@.len() == 10 && "logging/setLevel"@.len() == 16);
        assert("tools/call"@ != "logging/setLevel"@);
        reveal_strlit("notifications/roots/list_changed");
        assert("tools/call"@.len() == 10 && "notifications/roots/list_changed"@.len() == 32);
        assert("tools/call"@ != "notifications/roots/list_changed"@);
    } else if d == Direction::ClientToServer && m == "resources/list"@ {
        reveal_strlit("resources/list");
        reveal_strlit("tools/list");
        assert("resources/list"@.len() == 14 && "tools/list"@.len() == 10);
        assert("resources/list"@ != "tools/list"@);
        reveal_strlit("tools/call");
        assert("resources/list"@.len() == 14 && "tools/call"@.len() == 10);
        assert("resources/list"@ != "tools/call"@);
        reveal_strlit("resources/read");
        assert("resources/list"@[10] != "resources/read"@[10]);
        assert("resources/list"@ != "resources/read"@);
        reveal_strlit("resources/templates/list");
        assert("resources/list"@.len() == 14 && "resources/templates/list"@.len() == 24);
        assert("resources/list"@ != "resources/templates/list"@);
        reveal_strlit("resources/subscribe");
        assert("resources/list"@.len() == 14 && "resources/subscribe"@.len() == 19);
        assert("resources/list"@ != "resources/subscribe"@);
        reveal_strlit("resources/unsubscribe");
        assert("resources/list"@.len() == 14 && "resources/unsubscribe"@.len() == 21);
        assert("resources/list"@ != "resources/unsubscribe"@);
        reveal_strlit("prompts/list");
        assert("resources/list"@.len() == 14 && "prompts/list"@.len() == 12);
        assert("resources/list"@ != "prompts/list"@);
        reveal_strlit("prompts/get");
        assert("resources/list"@.len() == 14 && "prompts/get"@.len() == 11);
        assert("resources/list"@ != "prompts/get"@);
        reveal_strlit("completion/complete");
        assert("resources/list"@.len() == 14 && "completion/complete"@.len() == 19);
        assert("resources/list"@ != "completion/complete"@);
        reveal_strlit("logging/setLevel");
        assert("resources/list"@.len() == 14 && "logging/setLevel"@.len() == 16);
        assert("resources/list"@ != "logging/setLevel"@);
        reveal_strlit("notifications/roots/list_changed");
        assert("resources/list"@.len() == 14 && "notifications/roots/list_changed"@.len() == 32);
        assert("resources/list"@ != "notifications/roots/list_changed"@);
    } else if d == Direction::ClientToServer && m == "resources/read"@ {
        reveal_strlit("resources/read");
        reveal_strlit("tools/list");
        assert("resources/read"@.len() == 14 && "tools/list"@.len() == 10);
        assert("resources/read"@ != "tools/list"@);
        reveal_strlit("tools/call");
        assert("resources/read"@.len() == 14 && "tools/call"@.len() == 10);
        assert("resources/read"@ != "tools/call"@);
        reveal_strlit("resources/list");
        assert("resources/read"@[10] != "resources/list"@[10]);
        assert("resources/read"@ != "resources/list"@);
        reveal_strlit("resources/templates/list");
        assert("resources/read"@.len() == 14 && "resources/templates/list"@.len() == 24);
        assert("resources/read"@ != "resources/templates/list"@);
        reveal_strlit("resources/subscribe");
        assert("resources/read"@.len() == 14 && "resources/subscribe"@.len() == 19);
        assert("resources/read"@ != "resources/subscribe"@);
        reveal_strlit("resources/unsubscribe");
        assert("resources/read"@.len() == 14 && "resources/unsubscribe"@.len() == 21);
        assert("resources/read"@ != "resources/unsubscribe"@);
        reveal_strlit("prompts/list");
        assert("resources/read"@.len() == 14 && "prompts/list"@.len() == 12);
        assert("resources/read"@ != "prompts/list"@);
        reveal_strlit("prompts/get");
        assert("resources/read"@.len() == 14 && "prompts/get"@.len() == 11);
        assert("resources/read"@ != "prompts/get"@);
        reveal_strlit("completion/complete");
        assert("resources/read"@.len() == 14 && "completion/complete"@.len() == 19);
        assert("resources/read"@ != "completion/complete"@);
        reveal_strlit("logging/setLevel");
        assert("resources/read"@.len() == 14 && "logging/setLevel"@.len() == 16);
        assert("resources/read"@ != "logging/setLevel"@);
        reveal_strlit("notifications/roots/list_changed");
        assert("resources/read"@.len() == 14 && "notifications/roots/list_changed"@.len() == 32);
        assert("resources/read"@ != "notifications/roots/list_changed"@);
    } else if d == Direction::ClientToServer && m == "resources/templates/list"@ {
        reveal_strlit("resources/templates/list");
        reveal_strlit("tools/list");
        assert("resources/templates/list"@.len() == 24 && "tools/list"@.len() == 10);
        assert("resources/templates/list"@ != "tools/list"@);
        reveal_strlit("tools/call");
        assert("resources/templates/list"@.len() == 24 && "tools/call"@.len() == 10);
        assert("resources/templates/list"@ != "tools/call"@);
        reveal_strlit("resources/list");
        assert("resources/templates/list"@.len() == 24 && "resources/list"@.len() == 14);
        assert("resources/templates/list"@ != "resources/list"@);
        reveal_strlit("resources/read");
        assert("resources/templates/list"@.len() == 24 && "resources/read"@.len() == 14);
        assert("resources/templates/list"@ != "resources/read"@);
        reveal_strlit("resources/subscribe");
        assert("resources/templates/list"@.len() == 24 && "resources/subscribe"@.len() == 19);
        assert("resources/templates/list"@ != "resources/subscribe"@);
        reveal_strlit("resources/unsubscribe");
        assert("resources/templates/list"@.len() == 24 && "resources/unsubscribe"@.len() == 21);
        assert("resources/templates/list"@ != "resources/unsubscribe"@);
        reveal_strlit("prompts/list");
        assert("resources/templates/list"@.len() == 24 && "prompts/list"@.len() == 12);
        assert("resources/templates/list"@ != "prompts/list"@);
        reveal_strlit("prompts/get");
        assert("resources/templates/list"@.len() == 24 && "prompts/get"@.len() == 11);
        assert("resources/templates/list"@ != "prompts/get"@);
        reveal_strlit("completion/complete");
        assert("resources/templates/list"@.len() == 24 && "completion/complete"@.len() == 19);
        assert("resources/templates/list"@ != "completion/complete"@);
        reveal_strlit("logging/setLevel");
        assert("resources/templates/list"@.len() == 24 && "logging/setLevel"@.len() == 16);
        assert("resources/templates/list"@ != "logging/setLevel"@);
        reveal_strlit("notifications/roots/list_changed");
        assert("resources/templates/list"@.len() == 24 && "notifications/roots/list_changed"@.len() == 32);
        assert("resources/templates/list"@ != "notifications/roots/list_changed"@);
    } else if d == Direction::ClientToServer && m == "resources/subscribe"@ {
        reveal_strlit("resources/subscribe");
        reveal_strlit("tools/list");
        assert("resources/subscribe"@.len() == 19 && "tools/list"@.len() == 10);
        assert("resources/subscribe"@ != "tools/list"@);
        reveal_strlit("tools/call");
        assert("resources/subscribe"@.len() == 19 && "tools/call"@.len() == 10);
        assert("resources/subscribe"@ != "tools/call"@);
        reveal_strlit("resources/list");
        assert("resources/subscribe"@.len() == 19 && "resources/list"@.len() == 14);
        assert("resources/subscribe"@ != "resources/list"@);
        reveal_strlit("resources/read");
        assert("resources/subscribe"@.len() == 19 && "resources/read"@.len() == 14);
        assert("resources/subscribe"@ != "resources/read"@);
        reveal_strlit("resources/templates/list");
        assert("resources/subscribe"@.len() == 19 && "resources/templates/list"@.len() == 24);
        assert("resources/subscribe"@ != "resources/templates/list"@);
        reveal_strlit("resources/unsubscribe");
        assert("resources/subscribe"@.len() == 19 && "resources/unsubscribe"@.len() == 21);
        assert("resources/subscribe"@ != "resources/unsubscribe"@);
        reveal_strlit("prompts/list");
        assert("resources/subscribe"@.len() == 19 && "prompts/list"@.len() == 12);
        assert("resources/subscribe"@ != "prompts/list"@);
        reveal_strlit("prompts/get");
        assert("resources/subscribe"@.len() == 19 && "prompts/get"@.len() == 11);
        assert("resources/subscribe"@ != "prompts/get"@);
        reveal_strlit("completion/complete");
        assert("resources/subscribe"@[0] != "completion/complete"@[0]);
        assert("resources/subscribe"@ != "completion/complete"@);
        reveal_strlit("logging/setLevel");
        assert("resources/subscribe"@.len() == 19 && "logging/setLevel"@.len() == 16);
        assert("resources/subscribe"@ != "logging/setLevel"@);
        reveal_strlit("notifications/roots/list_changed");
        assert("resources/subscribe"@.len() == 19 && "notifications/roots/list_changed"@.len() == 32);
        assert("resources/subscribe"@ != "notifications/roots/list_changed"@);
    } else if d == Direction::ClientToServer && m == "resources/unsubscribe"@ {
        reveal_strlit("resources/unsubscribe");
        reveal_strlit("tools/list");
        assert("resources/unsubscribe"@.len() == 21 && "tools/list"@.len() == 10);
        assert("resources/unsubscribe"@ != "tools/list"@);
        reveal_strlit("tools/call");
        assert("resources/unsubscribe"@.len() == 21 && "tools/call"@.len() == 10);
        assert("resources/unsubscribe"@ != "tools/call"@);
        reveal_strlit("resources/list");
        assert("resources/unsubscribe"@.len() == 21 && "resources/list"@.len() == 14);
        assert("resources/unsubscribe"@ != "resources/list"@);
        reveal_strlit("resources/read");
        assert("resources/unsubscribe"@.len() == 21 && "resources/read"@.len() == 14);
        assert("resources/unsubscribe"@ != "resources/read"@);
        reveal_strlit("resources/templates/list");
        assert("resources/unsubscribe"@.len() == 21 && "resources/templates/list"@.len() == 24);
        assert("resources/unsubscribe"@ != "resources/templates/list"@);
        reveal_strlit("resources/subscribe");
        assert("resources/unsubscribe"@.len() == 21 && "resources/subscribe"@.len() == 19);
        assert("resources/unsubscribe"@ != "resources/subscribe"@);
        reveal_strlit("prompts/list");
        assert("resources/unsubscribe"@.len() == 21 && "prompts/list"@.len() == 12);
        assert("resources/unsubscribe"@ != "prompts/list"@);
        reveal_strlit("prompts/get");
        assert("resources/unsubscribe"@.len() == 21 && "prompts/get"@.len() == 11);
        assert("resources/unsubscribe"@ != "prompts/get"@);
        reveal_strlit("completion/complete");
        assert("resources/unsubscribe"@.len() == 21 && "completion/complete"@.len() == 19);
        assert("resources/unsubscribe"@ != "completion/complete"@);
        reveal_strlit("logging/setLevel");
        assert("resources/unsubscribe"@.len() == 21 && "logging/setLevel"@.len() == 16);
        assert("resources/unsubscribe"@ != "logging/setLevel"@);
        reveal_strlit("notifications/roots/list_changed");
        assert("resources/unsubscribe"@.len() == 21 && "notifications/roots/list_changed"@.len() == 32);
        assert("resources/unsubscribe"@ != "notifications/roots/list_changed"@);
    } else if d == Direction::ClientToServer && m == "prompts/list"@ {
        reveal_strlit("prompts/list");
        reveal_strlit("tools/list");
        assert("prompts/list"@.len() == 12 && "tools/list"@.len() == 10);
        assert("prompts/list"@ != "tools/list"@);
        reveal_strlit("tools/call");
        assert("prompts/list"@.len() == 12 && "tools/call"@.len() == 10);
        assert("prompts/list"@ != "tools/call"@);
        reveal_strlit("resources/list");
        assert("prompts/list"@.len() == 12 && "resources/list"@.len() == 14);
        assert("prompts/list"@ != "resources/list"@);
        reveal_strlit("resources/read");
        assert("prompts/list"@.len() == 12 && "resources/read"@.len() == 14);
        assert("prompts/list"@ != "resources/read"@);
        reveal_strlit("resources/templates/list");
        assert("prompts/list"@.len() == 12 && "resources/templates/list"@.len() == 24);
        assert("prompts/list"@ != "resources/templates/list"@);
        reveal_strlit("resources/subscribe");
        assert("prompts/list"@.len() == 12 && "resources/subscribe"@.len() == 19);
        assert("prompts/list"@ != "resources/subscribe"@);
        reveal_strlit("resources/unsubscribe");
        assert("prompts/list"@.len() == 12 && "resources/unsubscribe"@.len() == 21);
        assert("prompts/list"@ != "resources/unsubscribe"@);
        reveal_strlit("prompts/get");
        assert("prompts/list"@.len() == 12 && "prompts/get"@.len() == 11);
        assert("prompts/list"@ != "prompts/get"@);
        reveal_strlit("completion/complete");
        assert("prompts/list"@.len() == 12 && "completion/complete"@.len() == 19);
        assert("prompts/list"@ != "completion/complete"@);
        reveal_strlit("logging/setLevel");
        assert("prompts/list"@.len() == 12 && "logging/setLevel"@.len() == 16);
        assert("prompts/list"@ != "logging/setLevel"@);
        reveal_strlit("notifications/roots/list_changed");
        assert("prompts/list"@.len() == 12 && "notifications/roots/list_changed"@.len() == 32);
        assert("prompts/list"@ != "notifications/roots/list_changed"@);
    } else if d == Direction::ClientToServer && m == "prompts/get"@ {
        reveal_strlit("prompts/get");
        reveal_strlit("tools/list");
        assert("prompts/get"@.len() == 11 && "tools/list"@.len() == 10);
        assert("prompts/get"@ != "tools/list"@);
        reveal_strlit("tools/call");
        assert("prompts/get"@.len() == 11 && "tools/call"@.len() == 10);
        assert("prompts/get"@ != "tools/call"@);
        reveal_strlit("resources/list");
        assert("prompts/get"@.len() == 11 && "resources/list"@.len() == 14);
        assert("prompts/get"@ != "resources/list"@);
        reveal_strlit("resources/read");
        assert("prompts/get"@.len() == 11 && "resources/read"@.len() == 14);
        assert("prompts/get"@ != "resources/read"@);
        reveal_strlit("resources/templates/list");
        assert("prompts/get"@.len() == 11 && "resources/templates/list"@.len() == 24);
        assert("prompts/get"@ != "resources/templates/list"@);
        reveal_strlit("resources/subscribe");
        assert("prompts/get"@.len() == 11 && "resources/subscribe"@.len() == 19);
        assert("prompts/get"@ != "resources/subscribe"@);
        reveal_strlit("resources/unsubscribe");
        assert("prompts/get"@.len() == 11 && "resources/unsubscribe"@.len() == 21);
        assert("prompts/get"@ != "resources/unsubscribe"@);
        reveal_strlit("prompts/list");
        assert("prompts/get"@.len() == 11 && "prompts/list"@.len() == 12);
        assert("prompts/get"@ != "prompts/list"@);
        reveal_strlit("completion/complete");
        assert("prompts/get"@.len() == 11 && "completion/complete"@.len() == 19);
        assert("prompts/get"@ != "completion/complete"@);
        reveal_strlit("logging/setLevel");
        assert("prompts/get"@.len() == 11 && "logging/setLevel"@.len() == 16);
        assert("prompts/get"@ != "logging/setLevel"@);
        reveal_strlit("notifications/roots/list_changed");
        assert("prompts/get"@.len() == 11 && "notifications/roots/list_changed"@.len() == 32);
        assert("prompts/get"@ != "notifications/roots/list_changed"@);
    } else if d == Direction::ClientToServer && m == "completion/complete"@ {
        reveal_strlit("completion/complete");
        reveal_strlit("tools/list");
        assert("completion/complete"@.len() == 19 && "tools/list"@.len() == 10);
        assert("completion/complete"@ != "tools/list"@);
        reveal_strlit("tools/call");
        assert("completion/complete"@.len() == 19 && "tools/call"@.len() == 10);
        assert("completion/complete"@ != "tools/call"@);
        reveal_strlit("resources/list");
        assert("completion/complete"@.len() == 19 && "resources/list"@.len() == 14);
        assert("completion/complete"@ != "resources/list"@);
        reveal_strlit("resources/read");
        assert("completion/complete"@.len() == 19 && "resources/read"@.len() == 14);
        assert("completion/complete"@ != "resources/read"@);
        reveal_strlit("resources/templates/list");
        assert("completion/complete"@.len() == 19 && "resources/templates/list"@.len() == 24);
        assert("completion/complete"@ != "resources/templates/list"@);
        reveal_strlit("resources/subscribe");
        assert("completion/complete"@[0] != "resources/subscribe"@[0]);
        assert("completion/complete"@ != "resources/subscribe"@);
        reveal_strlit("resources/unsubscribe");
        assert("completion/complete"@.len() == 19 && "resources/unsubscribe"@.len() == 21);
        assert("completion/complete"@ != "resources/unsubscribe"@);
        reveal_strlit("prompts/list");
        assert("completion/complete"@.len() == 19 && "prompts/list"@.len() == 12);
        assert("completion/complete"@ != "prompts/list"@);
        reveal_strlit("prompts/get");
        assert("completion/complete"@.len() == 19 && "prompts/get"@.len() == 11);
        assert("completion/complete"@ != "prompts/get"@);
        reveal_strlit("logging/setLevel");
        assert("completion/complete"@.len() == 19 && "logging/setLevel"@.len() == 16);
        assert("completion/complete"@ != "logging/setLevel"@);
        reveal_strlit("notifications/roots/list_changed");
        assert("completion/complete"@.len() == 19 && "notifications/roots/list_changed"@.len() == 32);
        assert("completion/complete"@ != "notifications/roots/list_changed"@);
    } else if d == Direction::ClientToServer && m == "logging/setLevel"@ {
        reveal_strlit("logging/setLevel");
        reveal_strlit("tools/list");
        assert("logging/setLevel"@.len() == 16 && "tools/list"@.len() == 10);
        assert("logging/setLevel"@ != "tools/list"@);
        reveal_strlit("tools/call");
        assert("logging/setLevel"@.len() == 16 && "tools/call"@.len() == 10);
        assert("logging/setLevel"@ != "tools/call"@);
        reveal_strlit("resources/list");
        assert("logging/setLevel"@.len() == 16 && "resources/list"@.len() == 14);
        assert("logging/setLevel"@ != "resources/list"@);
        reveal_strlit("resources/read");
        assert("logging/setLevel"@.len() == 16 && "resources/read"@.len() == 14);
        assert("logging/setLevel"@ != "resources/read"@);
        reveal_strlit("resources/templates/list");
        assert("logging/setLevel"@.len() == 16 && "resources/templates/list"@.len() == 24);
        assert("logging/setLevel"@ != "resources/templates/list"@);
        reveal_strlit("resources/subscribe");
        assert("logging/setLevel"@.len() == 16 && "resources/subscribe"@.len() == 19);
        assert("logging/setLevel"@ != "resources/subscribe"@);
        reveal_strlit("resources/unsubscribe");
        assert("logging/setLevel"@.len() == 16 && "resources/unsubscribe"@.len() == 21);
        assert("logging/setLevel"@ != "resources/unsubscribe"@);
        reveal_strlit("prompts/list");
        assert("logging/setLevel"@.len() == 16 && "prompts/list"@.len() == 12);
        assert("logging/setLevel"@ != "prompts/list"@);
        reveal_strlit("prompts/get");
        assert("logging/setLevel"@.len() == 16 && "prompts/get"@.len() == 11);
        assert("logging/setLevel"@ != "prompts/get"@);
        reveal_strlit("completion/complete");
        assert("logging/setLevel"@.len() == 16 && "completion/complete"@.len() == 19);
        assert("logging/setLevel"@ != "completion/complete"@);
        reveal_strlit("notifications/roots/list_changed");
        assert("logging/setLevel"@.len() == 16 && "notifications/roots/list_changed"@.len() == 32);
        assert("logging/setLevel"@ != "notifications/roots/list_changed"@);
    } else if d == Direction::ClientToServer && m == "notifications/roots/list_changed"@ {
        reveal_strlit("notifications/roots/list_changed");
        reveal_strlit("tools/list");
        assert("notifications/roots/list_changed"@.len() == 32 && "tools/list"@.len() == 10);
        assert("notifications/roots/list_changed"@ != "tools/list"@);
        reveal_strlit("tools/call");
        assert("notifications/roots/list_changed"@.len() == 32 && "tools/call"@.len() == 10);
        assert("notifications/roots/list_changed"@ != "tools/call"@);
        reveal_strlit("resources/list");
        assert("notifications/roots/list_changed"@.len() == 32 && "resources/list"@.len() == 14);
        assert("notifications/roots/list_changed"@ != "resources/list"@);
        reveal_strlit("resources/read");
        assert("notifications/roots/list_changed"@.len() == 32 && "resources/read"@.len() == 14);
        assert("notifications/roots/list_changed"@ != "resources/read"@);
        reveal_strlit("resources/templates/list");
        assert("notifications/roots/list_changed"@.len() == 32 && "resources/templates/list"@.len() == 24);
        assert("notifications/roots/list_changed"@ != "resources/templates/list"@);
        reveal_strlit("resources/subscribe");
        assert("notifications/roots/list_changed"@.len() == 32 && "resources/subscribe"@.len() == 19);
        assert("notifications/roots/list_changed"@ != "resources/subscribe"@);
        reveal_strlit("resources/unsubscribe");
        assert("notifications/roots/list_changed"@.len() == 32 && "resources/unsubscribe"@.len() == 21);
        assert("notifications/roots/list_changed"@ != "resources/unsubscribe"@);
        reveal_strlit("prompts/list");
        assert("notifications/roots/list_changed"@.len() == 32 && "prompts/list"@.len() == 12);
        assert("notifications/roots/list_changed"@ != "prompts/list"@);
        reveal_strlit("prompts/get");
        assert("notifications/roots/list_changed"@.len() == 32 && "prompts/get"@.len() == 11);
        assert("notifications/roots/list_changed"@ != "prompts/get"@);
        reveal_strlit("completion/complete");
        assert("notifications/roots/list_changed"@.len() == 32 && "completion/complete"@.len() == 19);
        assert("notifications/roots/list_changed"@ != "completion/complete"@);
        reveal_strlit("logging/setLevel");
        assert("notifications/roots/list_changed"@.len() == 32 && "logging/setLevel"@.len() == 16);
        assert("notifications/roots/list_changed"@ != "logging/setLevel"@);
    } else if d == Direction::ServerToClient && m == "notifications/tools/list_changed"@ {
        reveal_strlit("notifications/tools/list_changed");
        reveal_strlit("notifications/resources/list_changed");
        assert("notifications/tools/list_changed"@.len() == 32 && "notifications/resources/list_changed"@.len() == 36);
        assert("notifications/tools/list_changed"@ != "notifications/resources/list_changed"@);
        reveal_strlit("notifications/resources/updated");
        assert("notifications/tools/list_changed"@.len() == 32 && "notifications/resources/updated"@.len() == 31);
        assert("notifications/tools/list_changed"@ != "notifications/resources/updated"@);
        reveal_strlit("notifications/prompts/list_changed");
        assert("notifications/tools/list_changed"@.len() == 32 && "notifications/prompts/list_changed"@.len() == 34);
        assert("notifications/tools/list_changed"@ != "notifications/prompts/list_changed"@);
        reveal_strlit("notifications/message");
        assert("notifications/tools/list_changed"@.len() == 32 && "notifications/message"@.len() == 21);
        assert("notifications/tools/list_changed"@ != "notifications/message"@);
        reveal_strlit("sampling/createMessage");
        assert("notifications/tools/list_changed"@.len() == 32 && "sampling/createMessage"@.len() == 22);
        assert("notifications/tools/list_changed"@ != "sampling/createMessage"@);
        reveal_strlit("elicitation/create");
        assert("notifications/tools/list_changed"@.len() == 32 && "elicitation/create"@.len() == 18);
        assert("notifications/tools/list_changed"@ != "elicitation/create"@);
        reveal_strlit("roots/list");
        assert("notifications/tools/list_changed"@.len() == 32 && "roots/list"@.len() == 10);
        assert("notifications/tools/list_changed"@ != "roots/list"@);
    } else if d == Direction::ServerToClient && m == "notifications/resources/list_changed"@ {
        reveal_strlit("notifications/resources/list_changed");
        reveal_strlit("notifications/tools/list_changed");
        assert("notifications/resources/list_changed"@.len() == 36 && "notifications/tools/list_changed"@.len() == 32);
        assert("notifications/resources/list_changed"@ != "notifications/tools/list_changed"@);
        reveal_strlit("notifications/resources/updated");
        assert("notifications/resources/list_changed"@.len() == 36 && "notifications/resources/updated"@.len() == 31);
        assert("notifications/resources/list_changed"@ != "notifications/resources/updated"@);
        reveal_strlit("notifications/prompts/list_changed");
        assert("notifications/resources/list_changed"@.len() == 36 && "notifications/prompts/list_changed"@.len() == 34);
        assert("notifications/resources/list_changed"@ != "notifications/prompts/list_changed"@);
        reveal_strlit("notifications/message");
        assert("notifications/resources/list_changed"@.len() == 36 && "notifications/message"@.len() == 21);
        assert("notifications/resources/list_changed"@ != "notifications/message"@);
        reveal_strlit("sampling/createMessage");
        assert("notifications/resources/list_changed"@.len() == 36 && "sampling/createMessage"@.len() == 22);
        assert("notifications/resources/list_changed"@ != "sampling/createMessage"@);
        reveal_strlit("elicitation/create");
        assert("notifications/resources/list_changed"@.len() == 36 && "elicitation/create"@.len() == 18);
        assert("notifications/resources/list_changed"@ != "elicitation/create"@);
        reveal_strlit("roots/list");
        assert("notifications/resources/list_changed"@.len() == 36 && "roots/list"@.len() == 10);
        assert("notifications/resources/list_changed"@ != "roots/list"@);
    } else if d == Direction::ServerToClient && m == "notifications/resources/updated"@ {
        reveal_strlit("notifications/resources/updated");
        reveal_strlit("notifications/tools/list_changed");
        assert("notifications/resources/updated"@.len() == 31 && "notifications/tools/list_changed"@.len() == 32);
        assert("notifications/resources/updated"@ != "notifications/tools/list_changed"@);
        reveal_strlit("notifications/resources/list_changed");
        assert("notifications/resources/updated"@.len() == 31 && "notifications/resources/list_changed"@.len() == 36);
        assert("notifications/resources/updated"@ != "notifications/resources/list_changed"@);
        reveal_strlit("notifications/prompts/list_changed");
        assert("notifications/resources/updated"@.len() == 31 && "notifications/prompts/list_changed"@.len() == 34);
        assert("notifications/resources/updated"@ != "notifications/prompts/list_changed"@);
        reveal_strlit("notifications/message");
        assert("notifications/resources/updated"@.len() == 31 && "notifications/message"@.len() == 21);
        assert("notifications/resources/updated"@ != "notifications/message"@);
        reveal_strlit("sampling/createMessage");
        assert("notifications/resources/updated"@.len() == 31 && "sampling/createMessage"@.len() == 22);
        assert("notifications/resources/updated"@ != "sampling/createMessage"@);
        reveal_strlit("elicitation/create");
        assert("notifications/resources/updated"@.len() == 31 && "elicitation/create"@.len() == 18);
        assert("notifications/resources/updated"@ != "elicitation/create"@);
        reveal_strlit("roots/list");
        assert("notifications/resources/updated"@.len() == 31 && "roots/list"@.len() == 10);
        assert("notifications/resources/updated"@ != "roots/list"@);
    } else if d == Direction::ServerToClient && m == "notifications/prompts/list_changed"@ {
        reveal_strlit("notifications/prompts/list_changed");
        reveal_strlit("notifications/tools/list_changed");
        assert("notifications/prompts/list_changed"@.len() == 34 && "notifications/tools/list_changed"@.len() == 32);
        assert("notifications/prompts/list_changed"@ != "notifications/tools/list_changed"@);
        reveal_strlit("notifications/resources/list_changed");
        assert("notifications/prompts/list_changed"@.len() == 34 && "notifications/resources/list_changed"@.len() == 36);
        assert("notifications/prompts/list_changed"@ != "notifications/resources/list_changed"@);
        reveal_strlit("notifications/resources/updated");
        assert("notifications/prompts/list_changed"@.len() == 34 && "notifications/resources/updated"@.len() == 31);
        assert("notifications/prompts/list_changed"@ != "notifications/resources/updated"@);
        reveal_strlit("notifications/message");
        assert("notifications/prompts/list_changed"@.len() == 34 && "notifications/message"@.len() == 21);
        assert("notifications/prompts/list_changed"@ != "notifications/message"@);
        reveal_strlit("sampling/createMessage");
        assert("notifications/prompts/list_changed"@.len() == 34 && "sampling/createMessage"@.len() == 22);
        assert("notifications/prompts/list_changed"@ != "sampling/createMessage"@);
        reveal_strlit("elicitation/create");
        assert("notifications/prompts/list_changed"@.len() == 34 && "elicitation/create"@.len() == 18);
        assert("notifications/prompts/list_changed"@ != "elicitation/create"@);
        reveal_strlit("roots/list");
        assert("notifications/prompts/list_changed"@.len() == 34 && "roots/list"@.len() == 10);
        assert("notifications/prompts/list_changed"@ != "roots/list"@);
    } else if d == Direction::ServerToClient && m == "notifications/message"@ {
        reveal_strlit("notifications/message");
        reveal_strlit("notifications/tools/list_changed");
        assert("notifications/message"@.len() == 21 && "notifications/tools/list_changed"@.len() == 32);
        assert("notifications/message"@ != "notifications/tools/list_changed"@);
        reveal_strlit("notifications/resources/list_changed");
        assert("notifications/message"@.len() == 21 && "notifications/resources/list_changed"@.len() == 36);
        assert("notifications/message"@ != "notifications/resources/list_changed"@);
        reveal_strlit("notifications/resources/updated");
        assert("notifications/message"@.len() == 21 && "notifications/resources/updated"@.len() == 31);
        assert("notifications/message"@ != "notifications/resources/updated"@);
        reveal_strlit("notifications/prompts/list_changed");
        assert("notifications/message"@.len() == 21 && "notifications/prompts/list_changed"@.len() == 34);
        assert("notifications/message"@ != "notifications/prompts/list_changed"@);
        reveal_strlit("sampling/createMessage");
        assert("notifications/message"@.len() == 21 && "sampling/createMessage"@.len() == 22);
        assert("notifications/message"@ != "sampling/createMessage"@);
        reveal_strlit("elicitation/create");
        assert("notifications/message"@.len() == 21 && "elicitation/create"@.len() == 18);
        assert("notifications/message"@ != "elicitation/create"@);
        reveal_strlit("roots/list");
        assert("notifications/message"@.len() == 21 && "roots/list"@.len() == 10);
        assert("notifications/message"@ != "roots/list"@);
    } else if d == Direction::ServerToClient && m == "sampling/createMessage"@ {
        reveal_strlit("sampling/createMessage");
        reveal_strlit("notifications/tools/list_changed");
        assert("sampling/createMessage"@.len() == 22 && "notifications/tools/list_changed"@.len() == 32);
        assert("sampling/createMessage"@ != "notifications/tools/list_changed"@);
        reveal_strlit("notifications/resources/list_changed");
        assert("sampling/createMessage"@.len() == 22 && "notifications/resources/list_changed"@.len() == 36);
        assert("sampling/createMessage"@ != "notifications/resources/list_changed"@);
        reveal_strlit("notifications/resources/updated");
        assert("sampling/createMessage"@.len() == 22 && "notifications/resources/updated"@.len() == 31);
        assert("sampling/createMessage"@ != "notifications/resources/updated"@);
        reveal_strlit("notifications/prompts/list_changed");
        assert("sampling/createMessage"@.len() == 22 && "notifications/prompts/list_changed"@.len() == 34);
        assert("sampling/createMessage"@ != "notifications/prompts/list_changed"@);
        reveal_strlit("notifications/message");
        assert("sampling/createMessage"@.len() == 22 && "notifications/message"@.len() == 21);
        assert("sampling/createMessage"@ != "notifications/message"@);
        reveal_strlit("elicitation/create");
        assert("sampling/createMessage"@.len() == 22 && "elicitation/create"@.len() == 18);
        assert("sampling/createMessage"@ != "elicitation/create"@);
        reveal_strlit("roots/list");
        assert("sampling/createMessage"@.len() == 22 && "roots/list"@.len() == 10);
        assert("sampling/createMessage"@ != "roots/list"@);
    } else if d == Direction::ServerToClient && m == "elicitation/create"@ {
        reveal_strlit("elicitation/create");
        reveal_strlit("notifications/tools/list_changed");
        assert("elicitation/create"@.len() == 18 && "notifications/tools/list_changed"@.len() == 32);
        assert("elicitation/create"@ != "notifications/tools/list_changed"@);
        reveal_strlit("notifications/resources/list_changed");
        assert("elicitation/create"@.len() == 18 && "notifications/resources/list_changed"@.len() == 36);
        assert("elicitation/create"@ != "notifications/resources/list_changed"@);
        reveal_strlit("notifications/resources/updated");
        assert("elicitation/create"@.len() == 18 && "notifications/resources/updated"@.len() == 31);
        assert("elicitation/create"@ != "notifications/resources/updated"@);
        reveal_strlit("notifications/prompts/list_changed");
        assert("elicitation/create"@.len() == 18 && "notifications/prompts/list_changed"@.len() == 34);
        assert("elicitation/create"@ != "notifications/prompts/list_changed"@);
        reveal_strlit("notifications/message");
        assert("elicitation/create"@.len() == 18 && "notifications/message"@.len() == 21);
        assert("elicitation/create"@ != "notifications/message"@);
        reveal_strlit("sampling/createMessage");
        assert("elicitation/create"@.len() == 18 && "sampling/createMessage"@.len() == 22);
        assert("elicitation/create"@ != "sampling/createMessage"@);
        reveal_strlit("roots/list");
        assert("elicitation/create"@.len() == 18 && "roots/list"@.len() == 10);
        assert("elicitation/create"@ != "roots/list"@);
    } else if d == Direction::ServerToClient && m == "roots/list"@ {
        reveal_strlit("roots/list");
        reveal_strlit("notifications/tools/list_changed");
        assert("roots/list"@.len() == 10 && "notifications/tools/list_changed"@.len() == 32);
        assert("roots/list"@ != "notifications/tools/list_changed"@);
        reveal_strlit("notifications/resources/list_changed");
        assert("roots/list"@.len() == 10 && "notifications/resources/list_changed"@.len() == 36);
        assert("roots/list"@ != "notifications/resources/list_changed"@);
        reveal_strlit("notifications/resources/updated");
        assert("roots/list"@.len() == 10 && "notifications/resources/updated"@.len() == 31);
        assert("roots/list"@ != "notifications/resources/updated"@);
        reveal_strlit("notifications/prompts/list_changed");
        assert("roots/list"@.len() == 10 && "notifications/prompts/list_changed"@.len() == 34);
        assert("roots/list"@ != "notifications/prompts/list_changed"@);
        reveal_strlit("notifications/message");
        assert("roots/list"@.len() == 10 && "notifications/message"@.len() == 21);
        assert("roots/list"@ != "notifications/message"@);
        reveal_strlit("sampling/createMessage");
        assert("roots/list"@.len() == 10 && "sampling/createMessage"@.len() == 22);
        assert("roots/list"@ != "sampling/createMessage"@);
        reveal_strlit("elicitation/create");
        assert("roots/list"@.len() == 10 && "elicitation/create"@.len() == 18);
        assert("roots/list"@ != "elicitation/create"@);
    }
}

/// Law: the capability each gated method rides on. A request or notification
/// sent in the listed direction is reported when the party listed beside it
/// withheld the capability at the listed path, and passes when that party
/// declared it. The list: client `tools/list`, `tools/call` on the server's
/// `tools`; `resources/list`, `resources/read`, `resources/templates/list` on
/// `resources`; `resources/subscribe`, `resources/unsubscribe` on
/// `resources.subscribe`; `prompts/list`, `prompts/get` on `prompts`;
/// `completion/complete` on `completions`; `logging/setLevel` on `logging`;
/// `notifications/roots/list_changed` on the client's `roots.listChanged`;
/// server `notifications/tools/list_changed`,
/// `notifications/resources/list_changed` and
/// `notifications/prompts/list_changed` on the server's `listChanged` of that
/// feature; `notifications/resources/updated` on `resources.subscribe`;
/// `notifications/message` on `logging`; and `sampling/createMessage`,
/// `elicitation/create`, `roots/list` on the client's `sampling`,
/// `elicitation` and `roots`.
pub proof fn lemma_gated_methods(events: Seq<TraceEvent>, e: TraceEvent, server: bool, path: Seq<Seq<char>>)
    requires
        (e.direction == Direction::ClientToServer && sent_method(e) == Some("tools/list"@) && server && path == seq!["tools"@])
            || (e.direction == Direction::ClientToServer && sent_method(e) == Some("tools/call"@) && server && path == seq!["tools"@])
            || (e.direction == Direction::ClientToServer && sent_method(e) == Some("resources/list"@) && server && path == seq!["resources"@])
            || (e.direction == Direction::ClientToServer && sent_method(e) == Some("resources/read"@) && server && path == seq!["resources"@])
            || (e.direction == Direction::ClientToServer && sent_method(e) == Some("resources/templates/list"@) && server && path == seq!["resources"@])
            || (e.direction == Direction::ClientToServer && sent_method(e) == Some("resources/subscribe"@) && server && path == seq!["resources"@, "subscribe"@])
            || (e.direction == Direction::ClientToServer && sent_method(e) == Some("resources/unsubscribe"@) && server && path == seq!["resources"@, "subscribe"@])
            || (e.direction == Direction::ClientToServer && sent_method(e) == Some("prompts/list"@) && server && path == seq!["prompts"@])
            || (e.direction == Direction::ClientToServer && sent_method(e) == Some("prompts/get"@) && server && path == seq!["prompts"@])
            || (e.direction == Direction::ClientToServer && sent_method(e) == Some("completion/complete"@) && server && path == seq!["completions"@])
            || (e.direction == Direction::ClientToServer && sent_method(e) == Some("logging/setLevel"@) && server && path == seq!["logging"@])
            || (e.direction == Direction::ClientToServer && sent_method(e) == Some("notifications/roots/list_changed"@) && !server && path == seq!["roots"@, "listChanged"@])
            || (e.direction == Direction::ServerToClient && sent_method(e) == Some("notifications/tools/list_changed"@) && server && path == seq!["tools"@, "listChanged"@])
            || (e.direction == Direction::ServerToClient && sent_method(e) == Some("notifications/resources/list_changed"@) && server && path == seq!["resources"@, "listChanged"@])
            || (e.direction == Direction::ServerToClient && sent_method(e) == Some("notifications/resources/updated"@) && server && path == seq!["resources"@, "subscribe"@])
            || (e.direction == Direction::ServerToClient && sent_method(e) == Some("notifications/prompts/list_changed"@) && server && path == seq!["prompts"@, "listChanged"@])
            || (e.direction == Direction::ServerToClient && sent_method(e) == Some("notifications/message"@) && server && path == seq!["logging"@])
            || (e.direction == Direction::ServerToClient && sent_method(e) == Some("sampling/createMessage"@) && !server && path == seq!["sampling"@])
            || (e.direction == Direction::ServerToClient && sent_method(e) == Some("elicitation/create"@) && !server && path == seq!["elicitation"@])
            || (e.direction == Direction::ServerToClient && sent_method(e) == Some("roots/list"@) && !server && path == seq!["roots"@]),
    ensures
        (if server { server_declaration(events, path) } else { client_declaration(events, path) }) == Declaration::Withheld
            ==> ungated_site(events, e) == seq![Some(e.seq)],
        (if server { server_declaration(events, path) } else { client_declaration(events, path) }) == Declaration::Declared
            ==> ungated_site(events, e) == Seq::<Option<u64>>::empty(),
{
    lemma_gate_row(e.direction, sent_method(e).unwrap(), server, path);
}

/// How many subjects a message is to the negotiation clause: one when it is
/// capability-gated and the session's declarations are in the trace.
pub open spec fn gated_subject(events: Seq<TraceEvent>, e: TraceEvent) -> nat {
    match sent_method(e) {
        Some(m) => match gate(e.direction, m) {
            Some((server, path)) => {
                let declared = if server { server_declaration(events, path) } else { client_declaration(events, path) };
                if declared != Declaration::Unknowable { 1 } else { 0 }
            },
            None => 0,
        },
        None => 0,
    }
}

/// `LIFE-009`: every capability-gated message must ride on a declared
/// capability.
pub fn negotiated_capabilities_only(context: &TraceContext<'_>, sink: &mut FindingSink)
    ensures
        crate::context::life_after(context.trace()).init.result is None
            ==> final(sink).subject_count() == Some(crate::checks::count_or_zero(old(sink).subject_count())),
        final(sink).check_id() == old(sink).check_id(),
        final(sink).subject_count() == after_counting(old(sink).subject_count(),
            tally(context.trace(), |e: TraceEvent| gated_subject(context.trace(), e)) as int),
        entry_seqs(final(sink).found()) == entry_seqs(old(sink).found())
            + sites(context.trace(), |e: TraceEvent| ungated_site(context.trace(), e)),
{
    sink.examined_many(0);
    let ghost events = context.trace();
    let ghost f = |e: TraceEvent| ungated_site(events, e);
    let n = context.len();
    let ghost g = |e: TraceEvent| gated_subject(events, e);
    let mut i: usize = 0;
    while i < n
        invariant
            n == events.len(),
            events == context.trace(),
            i <= n,
            f == (|e: TraceEvent| ungated_site(events, e)),
            sink.check_id() == old(sink).check_id(),
            g == (|e: TraceEvent| gated_subject(events, e)),
            sink.subject_count() == after_counting(old(sink).subject_count(), tally(events.take(i as int), g) as int),
            entry_seqs(sink.found()) == entry_seqs(old(sink).found()) + sites(events.take(i as int), f),
            crate::context::life_after(events).init.result is None
                ==> sink.subject_count() == Some(crate::checks::count_or_zero(old(sink).subject_count())),
        decreases n - i,
    {
        proof { lemma_sites_take(events, f, i as int); lemma_tally_take(events, g, i as int); }
        let event = context.event(i);
        let method: Option<&str> = match context.kind(i) {
            Some(MessageKind::Request { method, .. }) => Some(*method),
            Some(MessageKind::Notification { method }) => Some(*method),
            _ => None,
        };
        if let Some(method) = method {
            if let Some((server, path)) = gate_of(event.direction, method) {
                let declared = if server {
                    server_capability(context, path.as_slice())
                } else {
                    client_capability(context, path.as_slice())
                };
                if declared != Declaration::Unknowable {
                    sink.examined();
                }
                if declared == Declaration::Withheld {
                    let m = debug_text(method);
                    let mut d = owned(m.as_str());
                    push_text(&mut d, if server { " uses the server capability " } else { " uses the client capability " });
                    let mut k: usize = 0;
                    while k < path.len()
                        invariant
                            k <= path@.len(),
                        decreases path@.len() - k,
                    {
                        if k > 0 {
                            push_text(&mut d, ".");
                        }
                        push_text(&mut d, path[k]);
                        k = k + 1;
                    }
                    push_text(&mut d, ", which was not negotiated in this session");
                    sink.push(Some(event.seq), d);
                }
            }
        }
        i = i + 1;
    }
    proof { lemma_sites_all(events, f); lemma_tally_all(events, g); }
}

} // verus!
