//! Shared helpers for feature-area checks: declared-capability lookups and the
//! encoding validators (base64, RFC 3986 scheme syntax) several areas judge
//! against.

use vstd::prelude::*;
use vstd::utf8::{valid_utf8, decode_utf8};
use crate::context::{TraceContext, life_after};
use crate::json::Json;
use crate::trace::{Direction, EventBody, TraceEvent};
use crate::text::{chars_of, is_alpha, is_alnum, ascii_alpha, ascii_alnum};

verus! {

/// What a trace says about one capability.
///
/// A tri-state, because "this session did not declare it" and "this session
/// could not have declared it" are different facts and only the first is a
/// violation.
#[derive(Clone, Copy, Debug, PartialEq, Eq, Structural)]
pub enum Declaration {
    /// The declaration surface resolves the path to something that is neither
    /// `false` nor `null`.
    Declared,
    /// The declaration surface is present and the path is not on it.
    Withheld,
    /// The trace carries no `initialize` result, so nothing in it could have
    /// declared anything: a check that reaches this abstains.
    Unknowable,
}

/// The value `path` leads to from `current`, member by member.
pub open spec fn resolve(current: Json, path: Seq<Seq<char>>) -> Option<Json>
    decreases path.len(),
{
    if path.len() == 0 {
        Some(current)
    } else {
        match current.at(path[0]) {
            Some(next) => resolve(next, path.drop_first()),
            None => None,
        }
    }
}

/// The views of a path's segments.
pub open spec fn path_view(path: Seq<&str>) -> Seq<Seq<char>> {
    path.map_values(|s: &str| s@)
}

/// What a declaration surface says of `path`: abstain without an `initialize`
/// result; otherwise declared exactly when the path resolves to something other
/// than `null` or `false`.
pub open spec fn declaration(has_result: bool, capabilities: Option<Json>, path: Seq<Seq<char>>) -> Declaration {
    if !has_result {
        Declaration::Unknowable
    } else {
        match capabilities {
            None => Declaration::Withheld,
            Some(c) => match resolve(c, path) {
                None => Declaration::Withheld,
                Some(v) => if v is Null || v == Json::Bool(false) {
                    Declaration::Withheld
                } else {
                    Declaration::Declared
                },
            },
        }
    }
}

/// The server's declaration surface: the `capabilities` of the `initialize` result.
pub open spec fn server_surface(events: Seq<TraceEvent>) -> Option<Json> {
    match life_after(events).init.result {
        Some((_, r)) => r.at("capabilities"@),
        None => None,
    }
}

/// The client's declaration surface: the `capabilities` of the `initialize` params.
pub open spec fn client_surface(events: Seq<TraceEvent>) -> Option<Json> {
    match life_after(events).init.request {
        Some((_, Some(p))) => p.at("capabilities"@),
        _ => None,
    }
}

/// What the server declared for the capability at `path`.
pub open spec fn server_declaration(events: Seq<TraceEvent>, path: Seq<Seq<char>>) -> Declaration {
    declaration(life_after(events).init.result is Some, server_surface(events), path)
}

/// What the client declared for the capability at `path`.
pub open spec fn client_declaration(events: Seq<TraceEvent>, path: Seq<Seq<char>>) -> Declaration {
    declaration(life_after(events).init.result is Some, client_surface(events), path)
}

/// What the server declared for the capability at `path` (e.g. `["tools"]` or
/// `["resources", "subscribe"]`), read from the `initialize` result.
pub fn server_capability(context: &TraceContext<'_>, path: &[&str]) -> (d: Declaration)
    ensures
        d == server_declaration(context.trace(), path_view(path@)),
{
    capability_in(context.server_capabilities(), path, context)
}

/// The client-side counterpart of [`server_capability`], read from the
/// `initialize` request params.
pub fn client_capability(context: &TraceContext<'_>, path: &[&str]) -> (d: Declaration)
    ensures
        d == client_declaration(context.trace(), path_view(path@)),
{
    capability_in(context.client_capabilities(), path, context)
}

fn capability_in(capabilities: Option<&Json>, path: &[&str], context: &TraceContext<'_>) -> (d: Declaration)
    ensures
        d == declaration(life_after(context.trace()).init.result is Some, match capabilities {
            Some(c) => Some(*c),
            None => None,
        }, path_view(path@)),
{
    let init = context.initialize();
    if init.result.is_none() {
        return Declaration::Unknowable;
    }
    let mut current = match capabilities {
        Some(c) => c,
        None => return Declaration::Withheld,
    };
    let ghost full = path_view(path@);
    assert(full.skip(0) =~= full);
    let mut i: usize = 0;
    while i < path.len()
        invariant
            life_after(context.trace()).init.result is Some,
            i <= path@.len(),
            full == path_view(path@),
            capabilities matches Some(c) && resolve(*c, full) == resolve(*current, full.skip(i as int)),
        decreases path@.len() - i,
    {
        let ghost rest = full.skip(i as int);
        assert(rest[0] == path@[i as int]@);
        assert(rest.drop_first() =~= full.skip(i + 1));
        match current.get(path[i]) {
            Some(next) => current = next,
            None => {
                assert(resolve(*current, rest) is None);
                return Declaration::Withheld;
            },
        }
        i = i + 1;
    }
    assert(full.skip(path@.len() as int) =~= Seq::<Seq<char>>::empty());
    if current.is_null() || current.is_false() {
        Declaration::Withheld
    } else {
        Declaration::Declared
    }
}

/// The member `key` of a payload's `params._meta`, when there is one.
pub open spec fn meta_member(p: Json, key: Seq<char>) -> Option<Json> {
    match p.at("params"@) {
        Some(params) => match params.at("_meta"@) {
            Some(meta) => meta.at(key),
            None => None,
        },
        None => None,
    }
}

/// Reads the member `key` of a payload's `params._meta`.
pub fn get_meta_member<'a>(p: &'a Json, key: &str) -> (r: Option<&'a Json>)
    ensures
        match r {
            Some(v) => meta_member(*p, key@) == Some(*v),
            None => meta_member(*p, key@) is None,
        },
{
    match p.get("params") {
        Some(params) => match params.get("_meta") {
            Some(meta) => meta.get(key),
            None => None,
        },
        None => None,
    }
}

/// The status a server-sent HTTP event carries, when it is one.
pub open spec fn server_status(e: TraceEvent) -> Option<u16> {
    if e.direction == Direction::ServerToClient {
        match e.body {
            EventBody::Http { status, .. } => status,
            _ => None,
        }
    } else {
        None
    }
}

/// The `(seq, status)` of the last server-sent HTTP status recorded strictly
/// before `seq`: the response a message at `seq` rode under.
pub open spec fn status_before(events: Seq<TraceEvent>, seq: u64) -> Option<(u64, u16)>
    decreases events.len(),
{
    if events.len() == 0 {
        None
    } else if events.last().seq < seq && server_status(events.last()) is Some {
        Some((events.last().seq, server_status(events.last()).unwrap()))
    } else {
        status_before(events.drop_last(), seq)
    }
}

/// The HTTP status of the response that carried the message at `seq`: the
/// capture puts a response's `http` event before the messages it framed, so
/// the search runs backwards and stops at the first server-sent status. `None`
/// on a trace with no HTTP framing.
pub fn http_status_for(context: &TraceContext<'_>, seq: u64) -> (r: Option<(u64, u16)>)
    ensures
        r == status_before(context.trace(), seq),
{
    let ghost events = context.trace();
    let mut i = context.len();
    assert(events.take(i as int) =~= events);
    while i > 0
        invariant
            events == context.trace(),
            i <= events.len(),
            status_before(events, seq) == status_before(events.take(i as int), seq),
        decreases i,
    {
        i = i - 1;
        let event = context.event(i);
        proof {
            assert(events.take(i + 1).drop_last() =~= events.take(i as int));
            assert(events.take(i + 1).last() == events[i as int]);
        }
        if event.seq < seq && event.direction == Direction::ServerToClient {
            if let EventBody::Http { status: Some(status), .. } = &event.body {
                return Some((event.seq, *status));
            }
        }
    }
    None
}

/// Whether `c` belongs to the standard base64 alphabet (RFC 4648 §4).
pub open spec fn is_base64_char(c: char) -> bool {
    is_alnum(c) || c == '+' || c == '/'
}

/// How many trailing `=` a base64 text may end with, as far as the text shows
/// them: two, one, or none.
pub open spec fn padding(s: Seq<char>) -> int {
    if s.len() >= 2 && s[s.len() - 1] == '=' && s[s.len() - 2] == '=' {
        2
    } else if s.len() >= 1 && s[s.len() - 1] == '=' {
        1
    } else {
        0
    }
}

/// Standard base64: a length that is a multiple of four, at most two `=` of
/// padding, and only alphabet characters before it.
pub open spec fn base64_valid(s: Seq<char>) -> bool {
    &&& s.len() % 4 == 0
    &&& forall|i: int| 0 <= i < s.len() - padding(s) ==> #[trigger] is_base64_char(s[i])
}

fn base64_char(c: char) -> (r: bool)
    ensures
        r == is_base64_char(c),
{
    ascii_alnum(c) || c == '+' || c == '/'
}

/// `true` when `text` is standard base64 (RFC 4648 §4 alphabet, `=` padding to a
/// multiple of four, padding only at the end). The empty text validates: it
/// encodes zero bytes.
pub fn is_base64(text: &str) -> (r: bool)
    ensures
        r == base64_valid(text@),
{
    let cs = chars_of(text);
    let n = cs.len();
    if n % 4 != 0 {
        return false;
    }
    let pad: usize = if n >= 2 && cs[n - 1] == '=' && cs[n - 2] == '=' {
        2
    } else if n >= 1 && cs[n - 1] == '=' {
        1
    } else {
        0
    };
    assert(pad as int == padding(text@));
    let mut i: usize = 0;
    while i < n - pad
        invariant
            cs@ == text@,
            n == cs@.len(),
            pad as int == padding(text@),
            pad <= n,
            i <= n - pad,
            forall|j: int| 0 <= j < i ==> #[trigger] is_base64_char(text@[j]),
        decreases n - pad - i,
    {
        if !base64_char(cs[i]) {
            return false;
        }
        i = i + 1;
    }
    true
}

/// The value of a base64 alphabet character.
pub open spec fn sextet(c: char) -> int {
    if 'A' <= c && c <= 'Z' {
        c as int - 'A' as int
    } else if 'a' <= c && c <= 'z' {
        c as int - 'a' as int + 26
    } else if '0' <= c && c <= '9' {
        c as int - '0' as int + 52
    } else if c == '+' {
        62
    } else {
        63
    }
}

/// The 24 bits four sextets spell, most significant first.
pub open spec fn group_value(a: int, b: int, c: int, d: int) -> int {
    a * 262144 + b * 4096 + c * 64 + d
}

/// The three bytes of a full group of four characters.
pub open spec fn group_bytes(s: Seq<char>, k: int) -> Seq<u8> {
    let v = group_value(sextet(s[4 * k]), sextet(s[4 * k + 1]), sextet(s[4 * k + 2]), sextet(s[4 * k + 3]));
    seq![(v / 65536) as u8, ((v / 256) % 256) as u8, (v % 256) as u8]
}

/// The bytes of the first `k` full groups of `s`.
pub open spec fn groups_bytes(s: Seq<char>, k: int) -> Seq<u8>
    decreases k,
{
    if k <= 0 {
        Seq::empty()
    } else {
        groups_bytes(s, k - 1) + group_bytes(s, k - 1)
    }
}

/// The bytes of a final short group: three characters give two bytes, two give
/// one; the bits left over are dropped.
pub open spec fn tail_bytes(s: Seq<char>, k: int, rest: int) -> Seq<u8> {
    if rest == 3 {
        let v = group_value(sextet(s[4 * k]), sextet(s[4 * k + 1]), sextet(s[4 * k + 2]), 0);
        seq![(v / 65536) as u8, ((v / 256) % 256) as u8]
    } else if rest == 2 {
        let v = group_value(sextet(s[4 * k]), sextet(s[4 * k + 1]), 0, 0);
        seq![(v / 65536) as u8]
    } else {
        Seq::empty()
    }
}

/// The bytes a base64 text (without its padding) encodes.
pub open spec fn base64_bytes(content: Seq<char>) -> Seq<u8> {
    let k = (content.len() / 4) as int;
    groups_bytes(content, k) + tail_bytes(content, k, (content.len() % 4) as int)
}

/// What `decode_base64` gives: the text the bytes spell as UTF-8, when the
/// input is base64 and the bytes are UTF-8.
pub open spec fn base64_decoded(s: Seq<char>) -> Option<Seq<char>> {
    if !base64_valid(s) {
        None
    } else {
        let bytes = base64_bytes(s.take(s.len() - padding(s)));
        if valid_utf8(bytes) { Some(decode_utf8(bytes)) } else { None }
    }
}

fn sextet_of(c: char) -> (r: u32)
    requires
        is_base64_char(c),
    ensures
        r as int == sextet(c),
        r < 64,
{
    if 'A' <= c && c <= 'Z' {
        (c as u32) - ('A' as u32)
    } else if 'a' <= c && c <= 'z' {
        (c as u32) - ('a' as u32) + 26
    } else if '0' <= c && c <= '9' {
        (c as u32) - ('0' as u32) + 52
    } else if c == '+' {
        62
    } else {
        63
    }
}

fn group_parts(v: u32) -> (r: (u8, u8, u8))
    requires
        v < 16777216,
    ensures
        r.0 as int == (v as int / 65536) as u8,
        r.1 as int == ((v as int / 256) % 256) as u8,
        r.2 as int == (v as int % 256) as u8,
{
    ((v / 65536) as u8, ((v / 256) % 256) as u8, (v % 256) as u8)
}

/// `String::from_utf8`: the text the bytes spell, when they are UTF-8.
#[verifier::external_body]
fn utf8_text(bytes: Vec<u8>) -> (r: Option<String>)
    ensures
        r is Some <==> valid_utf8(bytes@),
        r matches Some(s) ==> s@ == decode_utf8(bytes@),
{
    String::from_utf8(bytes).ok()
}

/// The text that standard base64 `text` encodes, read as UTF-8. `None` when
/// `text` is not base64 or its bytes are not UTF-8.
pub fn decode_base64(text: &str) -> (r: Option<String>)
    ensures
        match r {
            Some(s) => base64_decoded(text@) == Some(s@),
            None => base64_decoded(text@) is None,
        },
{
    if !is_base64(text) {
        return None;
    }
    let cs = chars_of(text);
    let n = cs.len();
    let pad: usize = if n >= 2 && cs[n - 1] == '=' && cs[n - 2] == '=' {
        2
    } else if n >= 1 && cs[n - 1] == '=' {
        1
    } else {
        0
    };
    assert(pad as int == padding(text@));
    let m = n - pad;
    let ghost content = text@.take(m as int);
    let groups = m / 4;
    let mut bytes: Vec<u8> = Vec::new();
    let mut k: usize = 0;
    while k < groups
        invariant
            cs@ == text@,
            n == cs@.len(),
            m <= n,
            content == text@.take(m as int),
            groups == m / 4,
            k <= groups,
            forall|i: int| 0 <= i < m ==> #[trigger] is_base64_char(cs@[i]),
            bytes@ == groups_bytes(content, k as int),
        decreases groups - k,
    {
        let a = sextet_of(cs[4 * k]);
        let b = sextet_of(cs[4 * k + 1]);
        let c = sextet_of(cs[4 * k + 2]);
        let d = sextet_of(cs[4 * k + 3]);
        let v: u32 = a * 262144 + b * 4096 + c * 64 + d;
        let (x, y, z) = group_parts(v);
        bytes.push(x);
        bytes.push(y);
        bytes.push(z);
        assert(bytes@ =~= groups_bytes(content, k as int) + group_bytes(content, k as int));
        k = k + 1;
    }
    let rest = m % 4;
    if rest == 3 {
        let a = sextet_of(cs[4 * groups]);
        let b = sextet_of(cs[4 * groups + 1]);
        let c = sextet_of(cs[4 * groups + 2]);
        let v: u32 = a * 262144 + b * 4096 + c * 64;
        let (x, y, _) = group_parts(v);
        bytes.push(x);
        bytes.push(y);
    } else if rest == 2 {
        let a = sextet_of(cs[4 * groups]);
        let b = sextet_of(cs[4 * groups + 1]);
        let v: u32 = a * 262144 + b * 4096;
        let (x, _, _) = group_parts(v);
        bytes.push(x);
    }
    assert(bytes@ =~= base64_bytes(content));
    utf8_text(bytes)
}

/// An RFC 3986 §3.1 scheme character after the first: `ALPHA / DIGIT / "+" / "-" / "."`.
pub open spec fn is_scheme_char(c: char) -> bool {
    is_alnum(c) || c == '+' || c == '-' || c == '.'
}

/// Whether `uri` begins with an RFC 3986 scheme followed by `:`: a letter, then
/// scheme characters up to the first colon.
pub open spec fn has_scheme(uri: Seq<char>) -> bool {
    exists|k: int| #![trigger uri[k]]
        1 <= k < uri.len() && uri[k] == ':' && is_alpha(uri[0])
            && forall|i: int| 1 <= i < k ==> #[trigger] is_scheme_char(uri[i])
}

/// `true` when `uri` begins with an RFC 3986 §3.1 scheme followed by `:`:
/// `ALPHA *( ALPHA / DIGIT / "+" / "-" / "." )`. Judges scheme syntax only.
pub fn has_rfc3986_scheme(uri: &str) -> (r: bool)
    ensures
        r == has_scheme(uri@),
{
    let cs = chars_of(uri);
    let n = cs.len();
    if n == 0 || !ascii_alpha(cs[0]) {
        return false;
    }
    let mut i: usize = 1;
    while i < n
        invariant
            cs@ == uri@,
            n == cs@.len(),
            1 <= i <= n,
            is_alpha(uri@[0]),
            forall|j: int| 1 <= j < i ==> #[trigger] is_scheme_char(uri@[j]),
        decreases n - i,
    {
        let c = cs[i];
        if c == ':' {
            assert(uri@[i as int] == ':');
            return true;
        }
        if !(ascii_alnum(c) || c == '+' || c == '-' || c == '.') {
            assert forall|k: int| 1 <= k < uri@.len() && #[trigger] uri@[k] == ':' && is_alpha(uri@[0])
                implies !(forall|j: int| 1 <= j < k ==> #[trigger] is_scheme_char(uri@[j])) by {
                if k <= i {
                    assert(is_scheme_char(uri@[k]));
                } else {
                    assert(!is_scheme_char(uri@[i as int]));
                }
            }
            return false;
        }
        i = i + 1;
    }
    assert forall|k: int| 1 <= k < uri@.len() && #[trigger] uri@[k] == ':' implies false by {
        assert(is_scheme_char(uri@[k]));
    }
    false
}

} // verus!
