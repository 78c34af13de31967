//! JSON-RPC message classification.

use vstd::prelude::*;
use crate::json::Json;

verus! {

/// What a JSON-RPC payload is.
pub enum MessageKind<'a> {
    /// A request: a string `method` and an `id` (of any type, `null` included).
    Request { method: &'a str, id: &'a Json },
    /// A notification: a string `method` and no `id`.
    Notification { method: &'a str },
    /// A success response: a `result`, and the `id` when one is present.
    Result { id: Option<&'a Json> },
    /// An error response: an `error`, and the `id` when one is present.
    Error { id: Option<&'a Json>, error: &'a Json },
    /// Anything else, with the reason.
    Invalid { reason: &'static str },
}

/// The shape of a classification, without its borrowed parts.
#[derive(Clone, Copy, Debug, PartialEq, Eq, Structural)]
pub enum Tag {
    Request,
    Notification,
    Result,
    Error,
    Invalid,
}

/// How a payload classifies: an object with a string `method` is a request when
/// it has an `id` and a notification otherwise; without `method`, an object with
/// `result` and no `error` is a success response and one with `error` and no
/// `result` an error response; everything else is invalid.
pub open spec fn spec_tag(p: Json) -> Tag {
    if !(p is Object) {
        Tag::Invalid
    } else if p.at("method"@) is Some {
        if p.at("method"@).unwrap() is Str {
            if p.at("id"@) is Some { Tag::Request } else { Tag::Notification }
        } else {
            Tag::Invalid
        }
    } else if p.at("result"@) is Some && p.at("error"@) is None {
        Tag::Result
    } else if p.at("error"@) is Some && p.at("result"@) is None {
        Tag::Error
    } else {
        Tag::Invalid
    }
}

impl<'a> MessageKind<'a> {
    /// The shape of this classification.
    pub open spec fn tag(self) -> Tag {
        match self {
            MessageKind::Request { .. } => Tag::Request,
            MessageKind::Notification { .. } => Tag::Notification,
            MessageKind::Result { .. } => Tag::Result,
            MessageKind::Error { .. } => Tag::Error,
            MessageKind::Invalid { .. } => Tag::Invalid,
        }
    }

    /// The method a request or notification names.
    pub open spec fn method(self) -> Seq<char> {
        match self {
            MessageKind::Request { method, .. } => method@,
            MessageKind::Notification { method } => method@,
            _ => Seq::empty(),
        }
    }
}

/// The `id` member, as the spec reads it.
pub open spec fn opt(j: Option<&Json>) -> Option<Json> {
    match j {
        Some(v) => Some(*v),
        None => None,
    }
}

/// Why a payload that classifies as invalid is invalid.
pub open spec fn invalid_reason(p: Json) -> Seq<char> {
    if !(p is Object) {
        "the message is not a JSON object"@
    } else if p.at("method"@) is Some {
        "the method member is not a string"@
    } else if p.at("result"@) is Some {
        "the message carries both result and error"@
    } else {
        "the message has no method, result, or error member"@
    }
}

/// Whether `k` is the classification of payload `p`: its shape, and the parts it
/// borrows from `p`.
pub open spec fn classifies(p: Json, k: MessageKind) -> bool {
    &&& k.tag() == spec_tag(p)
    &&& (k.tag() == Tag::Request || k.tag() == Tag::Notification) ==> p.at("method"@).unwrap().text() == Some(k.method())
    &&& k matches MessageKind::Request { id, .. } ==> p.at("id"@) == Some(*id)
    &&& k matches MessageKind::Result { id } ==> p.at("id"@) == opt(id)
    &&& k matches MessageKind::Error { id, error } ==> p.at("id"@) == opt(id) && p.at("error"@) == Some(*error)
    &&& k matches MessageKind::Invalid { reason } ==> reason@ == invalid_reason(p)
}

/// Classifies a JSON-RPC payload.
pub fn classify<'a>(p: &'a Json) -> (k: MessageKind<'a>)
    ensures
        classifies(*p, k),
{
    if !p.is_object() {
        return MessageKind::Invalid { reason: "the message is not a JSON object" };
    }
    match p.get("method") {
        Some(m) => match m.as_str() {
            Some(method) => match p.get("id") {
                Some(id) => MessageKind::Request { method, id },
                None => MessageKind::Notification { method },
            },
            None => MessageKind::Invalid { reason: "the method member is not a string" },
        },
        None => {
            let result = p.get("result");
            let error = p.get("error");
            match (result, error) {
                (Some(_), None) => MessageKind::Result { id: p.get("id") },
                (None, Some(e)) => MessageKind::Error { id: p.get("id"), error: e },
                (Some(_), Some(_)) => MessageKind::Invalid {
                    reason: "the message carries both result and error",
                },
                (None, None) => MessageKind::Invalid {
                    reason: "the message has no method, result, or error member",
                },
            }
        },
    }
}

} // verus!
