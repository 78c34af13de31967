//! `2026-07-28` Streamable HTTP: what the transport checks share. The POST
//! pairing, header safety, the Base64 sentinel, and the mirrors: the body
//! values a POST must carry in headers.

use vstd::prelude::*;
use crate::checks::support::{base64_decoded, decode_base64};
use crate::checks::designation::{Designation, DesignationView, designation_views, designated_for, ascii_lower,
    lookup_designations, tool_views, tool_headers_agree, headers_agree, header_of, trace_designations};
use crate::checks::features::value_at;
use crate::context::TraceContext;
use crate::json::{Json, Number};
use crate::text::{chars_of, owned, push_text, text_eq, decimal, signed_decimal, u64_text, i64_text, texts};
use crate::trace::{Direction, EventBody, TraceEvent, TransportKind};

verus! {

/// A character a header value may carry plainly: horizontal tab, or visible
/// ASCII and space.
pub open spec fn header_char(c: char) -> bool {
    c == '\t' || (' ' <= c && c <= '~')
}

/// Space or horizontal tab, which may not lead or trail a plain value.
pub open spec fn edge_space(c: char) -> bool {
    c == ' ' || c == '\t'
}

/// Whether `s` is safely representable as a plain ASCII header value: RFC 9110
/// field-value characters, with no leading or trailing whitespace.
pub open spec fn safe_header(s: Seq<char>) -> bool {
    &&& forall|i: int| 0 <= i < s.len() ==> #[trigger] header_char(s[i])
    &&& s.len() > 0 ==> !edge_space(s[0]) && !edge_space(s.last())
}

/// Whether `value` is safely representable as a plain ASCII header value.
pub fn header_safe(value: &str) -> (r: bool)
    ensures
        r == safe_header(value@),
{
    let cs = chars_of(value);
    let n = cs.len();
    let mut i: usize = 0;
    while i < n
        invariant
            cs@ == value@,
            n == cs@.len(),
            i <= n,
            forall|j: int| 0 <= j < i ==> #[trigger] header_char(value@[j]),
        decreases n - i,
    {
        let c = cs[i];
        if !(c == '\t' || (' ' <= c && c <= '~')) {
            assert(!header_char(value@[i as int]));
            return false;
        }
        i = i + 1;
    }
    if n > 0 {
        let first = cs[0];
        let last = cs[n - 1];
        if first == ' ' || first == '\t' || last == ' ' || last == '\t' {
            return false;
        }
    }
    true
}

/// The Base64 payload a value carries, when it uses the sentinel exactly:
/// `=?base64?` then the payload then `?=`.
pub open spec fn sentinel(s: Seq<char>) -> Option<Seq<char>> {
    if s.len() >= 11 && s.take(9) == "=?base64?"@ && s.skip(s.len() - 2) == "?="@ {
        Some(s.subrange(9, s.len() - 2))
    } else {
        None
    }
}

/// The Base64 payload `value` carries, when it uses the sentinel exactly.
pub fn sentinel_payload(value: &str) -> (r: Option<&str>)
    ensures
        match r {
            Some(p) => sentinel(value@) == Some(p@),
            None => sentinel(value@) is None,
        },
{
    proof { reveal_strlit("=?base64?"); reveal_strlit("?="); }
    let n = value.unicode_len();
    if n < 11 {
        return None;
    }
    let cs = chars_of(value);
    let open = chars_of("=?base64?");
    let mut i: usize = 0;
    while i < 9
        invariant
            i <= 9,
            cs@ == value@,
            open@ == "=?base64?"@,
            open@.len() == 9,
            n == value@.len(),
            n >= 11,
            forall|j: int| 0 <= j < i ==> value@[j] == "=?base64?"@[j],
        decreases 9 - i,
    {
        if cs[i] != open[i] {
            assert(value@.take(9)[i as int] != "=?base64?"@[i as int]);
            return None;
        }
        i = i + 1;
    }
    assert(value@.take(9) =~= "=?base64?"@);
    if !(cs[n - 2] == '?' && cs[n - 1] == '=') {
        assert(value@.skip(n - 2)[0] == cs@[n - 2]);
        assert(value@.skip(n - 2)[1] == cs@[n - 1]);
        return None;
    }
    assert(value@.skip(n - 2) =~= "?="@);
    Some(value.substring_char(9, n - 2))
}

/// Whether `s` uses the sentinel markers in a casing other than the
/// required lowercase one.
pub open spec fn miscased(s: Seq<char>) -> bool {
    sentinel(s) is None && sentinel(ascii_lower(s)) is Some
}

/// Whether `value` uses the sentinel markers in any casing but the required one.
pub fn is_miscased_sentinel(value: &str) -> (r: bool)
    ensures
        r == miscased(value@),
{
    let folded = crate::checks::designation::lower_text(value);
    sentinel_payload(value).is_none() && sentinel_payload(folded.as_str()).is_some()
}

/// How a mirrored header value relates to the body value it mirrors.
#[derive(Clone, Copy, Debug, PartialEq, Eq, Structural)]
pub enum Match {
    /// The header carries the body value, plainly or Base64-encoded.
    Carried,
    /// The header repeats verbatim a body value that matches the sentinel
    /// pattern, which the client must encode.
    UnencodedSentinel,
    /// The header and the body disagree.
    Mismatch,
}

/// How a header value relates to the body value it mirrors, the sentinel
/// decoded first.
pub open spec fn compared(header: Seq<char>, body: Seq<char>) -> Match {
    if header == body {
        if sentinel(body) is Some { Match::UnencodedSentinel } else { Match::Carried }
    } else if sentinel(header) matches Some(encoded) && base64_decoded(encoded) == Some(body) {
        Match::Carried
    } else {
        Match::Mismatch
    }
}

/// Compares a header value against the body value it mirrors, decoding the
/// sentinel first.
pub fn compare(header: &str, body: &str) -> (r: Match)
    ensures
        r == compared(header@, body@),
{
    if text_eq(header, body) {
        return if sentinel_payload(body).is_some() { Match::UnencodedSentinel } else { Match::Carried };
    }
    if let Some(encoded) = sentinel_payload(header) {
        if let Some(decoded) = decode_base64(encoded) {
            if text_eq(decoded.as_str(), body) {
                return Match::Carried;
            }
        }
    }
    Match::Mismatch
}

/// A parameter value's header form: strings as they are, integers in decimal,
/// booleans lowercase; any other value has none.
pub open spec fn header_form(v: Json) -> Option<Seq<char>> {
    match v {
        Json::Str(s) => Some(s@),
        Json::Bool(b) => Some(if b { "true"@ } else { "false"@ }),
        Json::Num(Number::Unsigned(u)) => Some(decimal(u as nat)),
        Json::Num(Number::Negative(n)) => Some(signed_decimal(n as int)),
        _ => None,
    }
}

/// A parameter value's header form.
pub fn header_text(value: &Json) -> (r: Option<String>)
    ensures
        match r {
            Some(t) => header_form(*value) == Some(t@),
            None => header_form(*value) is None,
        },
{
    match value {
        Json::Str(s) => Some(owned(s.as_str())),
        Json::Bool(b) => Some(if *b { owned("true") } else { owned("false") }),
        Json::Num(Number::Unsigned(u)) => Some(u64_text(*u)),
        Json::Num(Number::Negative(n)) => Some(i64_text(*n)),
        _ => None,
    }
}

/// The value of the header whose lowercased name is `name`: the last one
/// recorded under that name.
pub open spec fn header_value(headers: Seq<(String, String)>, name: Seq<char>) -> Option<Seq<char>>
    decreases headers.len(),
{
    if headers.len() == 0 {
        None
    } else if ascii_lower(headers.last().0@) == name {
        Some(headers.last().1@)
    } else {
        header_value(headers.drop_last(), name)
    }
}

/// The value of header `name` (given in lowercase), as recorded last.
pub fn get_header<'a>(headers: &'a Vec<(String, String)>, name: &str) -> (r: Option<&'a String>)
    ensures
        match r {
            Some(v) => header_value(headers@, name@) == Some(v@),
            None => header_value(headers@, name@) is None,
        },
{
    let mut i = headers.len();
    assert(headers@.take(i as int) =~= headers@);
    while i > 0
        invariant
            i <= headers@.len(),
            header_value(headers@, name@) == header_value(headers@.take(i as int), name@),
        decreases i,
    {
        i = i - 1;
        proof {
            assert(headers@.take(i + 1).drop_last() =~= headers@.take(i as int));
            assert(headers@.take(i + 1).last() == headers@[i as int]);
        }
        let lowered = crate::checks::designation::lower_text(headers[i].0.as_str());
        if text_eq(lowered.as_str(), name) {
            return Some(&headers[i].1);
        }
    }
    None
}

/// The index of the first client event at or after `k`.
pub open spec fn next_client(events: Seq<TraceEvent>, k: int) -> Option<int>
    decreases events.len() - k,
{
    if k < 0 || k >= events.len() {
        None
    } else if events[k].direction == Direction::ClientToServer {
        Some(k)
    } else {
        next_client(events, k + 1)
    }
}

/// The headers of an HTTP event.
pub open spec fn http_headers(e: TraceEvent) -> Seq<(String, String)> {
    match e.body {
        EventBody::Http { headers, .. } => headers@,
        _ => Seq::empty(),
    }
}

/// The message a client POST at `i` framed: the next client event after it,
/// when that is a message.
pub open spec fn post_at(events: Seq<TraceEvent>, i: int) -> Option<int> {
    if events[i].direction == Direction::ClientToServer && events[i].transport == TransportKind::StreamableHttp
        && events[i].body is Http {
        match next_client(events, i + 1) {
            Some(m) => if events[m].payload() is Some { Some(m) } else { None },
            None => None,
        }
    } else {
        None
    }
}

/// The client POSTs among the first `n` events, as (http index, message index).
pub open spec fn post_list(events: Seq<TraceEvent>, n: nat) -> Seq<(int, int)>
    decreases n,
{
    if n == 0 {
        Seq::empty()
    } else {
        match post_at(events, n - 1) {
            Some(m) => post_list(events, (n - 1) as nat).push((n - 1, m)),
            None => post_list(events, (n - 1) as nat),
        }
    }
}

/// The client POSTs of a trace.
pub open spec fn trace_posts(events: Seq<TraceEvent>) -> Seq<(int, int)> {
    post_list(events, events.len() as nat)
}

/// A client POST: the HTTP headers it carried, and the message they framed.
pub struct Post<'a> {
    /// The position of the HTTP event.
    pub at: usize,
    /// The position of the message event.
    pub message_at: usize,
    /// The `seq` of the HTTP event carrying the headers.
    pub seq: u64,
    /// The `seq` of the message event the POST framed.
    pub message_seq: u64,
    /// The POST's headers, as recorded.
    pub headers: &'a Vec<(String, String)>,
    /// The JSON-RPC message the POST carried.
    pub payload: &'a Json,
}

/// Whether `ps` are the POSTs at `ixs` of `events`.
pub open spec fn posts_are(ps: Seq<Post>, events: Seq<TraceEvent>, ixs: Seq<(int, int)>) -> bool {
    &&& ps.len() == ixs.len()
    &&& forall|k: int| 0 <= k < ixs.len() ==> {
        &&& (#[trigger] ps[k]).at as int == ixs[k].0
        &&& ps[k].message_at as int == ixs[k].1
        &&& 0 <= ixs[k].0 < ixs[k].1 < events.len()
        &&& ps[k].seq == events[ixs[k].0].seq
        &&& ps[k].message_seq == events[ixs[k].1].seq
        &&& ps[k].headers@ == http_headers(events[ixs[k].0])
        &&& events[ixs[k].1].payload() == Some(*ps[k].payload)
    }
}

/// The method a payload names, when it is a string.
pub open spec fn payload_method(p: Json) -> Option<Seq<char>> {
    match p.at("method"@) {
        Some(m) => m.text(),
        None => None,
    }
}

/// Whether a payload is a JSON-RPC request: a string method and a non-null id.
pub open spec fn payload_is_request(p: Json) -> bool {
    payload_method(p) is Some && (p.at("id"@) matches Some(id) && !(id is Null))
}

/// The protocol version a payload's `_meta` envelope states.
pub open spec fn body_version(p: Json) -> Option<Seq<char>> {
    match crate::checks::support::meta_member(p, "io.modelcontextprotocol/protocolVersion"@) {
        Some(v) => v.text(),
        None => None,
    }
}

impl<'a> Post<'a> {
    /// The message's `method`, when it has one.
    pub fn method(&self) -> (r: Option<&'a str>)
        ensures
            match r {
                Some(m) => payload_method(*self.payload) == Some(m@),
                None => payload_method(*self.payload) is None,
            },
    {
        match self.payload.get("method") {
            Some(m) => m.as_str(),
            None => None,
        }
    }

    /// Whether the POST carried a JSON-RPC request rather than a notification.
    pub fn is_request(&self) -> (r: bool)
        ensures
            r == payload_is_request(*self.payload),
    {
        self.method().is_some() && match self.payload.get("id") {
            Some(id) => !id.is_null(),
            None => false,
        }
    }

    /// The protocol version this request's `_meta` envelope states.
    pub fn body_protocol_version(&self) -> (r: Option<&'a str>)
        ensures
            match r {
                Some(v) => body_version(*self.payload) == Some(v@),
                None => body_version(*self.payload) is None,
            },
    {
        match crate::checks::support::get_meta_member(self.payload, "io.modelcontextprotocol/protocolVersion") {
            Some(v) => v.as_str(),
            None => None,
        }
    }
}

fn framed_after(context: &TraceContext<'_>, i: usize) -> (r: Option<usize>)
    requires
        i < context.trace().len(),
    ensures
        match r {
            Some(m) => next_client(context.trace(), i + 1) == Some(m as int) && i < m < context.trace().len(),
            None => next_client(context.trace(), i + 1) is None,
        },
{
    let ghost events = context.trace();
    let n = context.len();
    let mut k = i + 1;
    while k < n
        invariant
            n == events.len(),
            events == context.trace(),
            i < k <= n,
            next_client(events, i + 1) == next_client(events, k as int),
        decreases n - k,
    {
        if context.event(k).direction == Direction::ClientToServer {
            return Some(k);
        }
        k = k + 1;
    }
    None
}

/// Every client POST over Streamable HTTP in the trace, in capture order: a
/// client `http` event and the next client message after it.
pub fn posts<'a>(context: &TraceContext<'a>) -> (r: Vec<Post<'a>>)
    ensures
        posts_are(r@, context.trace(), trace_posts(context.trace())),
{
    let ghost events = context.trace();
    let n = context.len();
    let mut out: Vec<Post<'a>> = Vec::new();
    let mut i: usize = 0;
    while i < n
        invariant
            n == events.len(),
            events == context.trace(),
            i <= n,
            posts_are(out@, events, post_list(events, i as nat)),
        decreases n - i,
    {
        let event = context.event(i);
        let ghost before = out@;
        if event.direction == Direction::ClientToServer && event.transport == TransportKind::StreamableHttp {
            if let EventBody::Http { headers, .. } = &event.body {
                if let Some(m) = framed_after(context, i) {
                    let framed = context.event(m);
                    if let Some(payload) = framed.message_payload() {
                        out.push(Post { at: i, message_at: m, seq: event.seq, message_seq: framed.seq, headers, payload });
                        proof {
                            let ixs = post_list(events, (i + 1) as nat);
                            assert(ixs == post_list(events, i as nat).push((i as int, m as int)));
                            assert forall|k: int| 0 <= k < ixs.len() implies {
                                &&& (#[trigger] out@[k]).at as int == ixs[k].0
                                &&& out@[k].message_at as int == ixs[k].1
                                &&& 0 <= ixs[k].0 < ixs[k].1 < events.len()
                                &&& out@[k].seq == events[ixs[k].0].seq
                                &&& out@[k].message_seq == events[ixs[k].1].seq
                                &&& out@[k].headers@ == http_headers(events[ixs[k].0])
                                &&& events[ixs[k].1].payload() == Some(*out@[k].payload)
                            } by {
                                if k < before.len() {
                                    assert(out@[k] == before[k]);
                                }
                            }
                        }
                    }
                }
            }
        }
        i = i + 1;
    }
    out
}

/// One body value a POST must mirror into an HTTP header, as plain values.
pub struct MirrorView {
    /// The header's lowercase name.
    pub header: Seq<char>,
    /// The header as the specification spells it.
    pub label: Seq<char>,
    /// The body path the value is sourced from.
    pub source: Seq<char>,
    /// The body value's header form.
    pub value: Seq<char>,
    /// Whether the Base64 sentinel may carry this header's value.
    pub encodable: bool,
}

/// One body value a POST must mirror into an HTTP header.
pub struct Mirror {
    pub header: String,
    pub label: String,
    pub source: String,
    pub value: String,
    pub encodable: bool,
}

impl Mirror {
    /// The mirror as plain values.
    pub open spec fn view_of(self) -> MirrorView {
        MirrorView { header: self.header@, label: self.label@, source: self.source@, value: self.value@,
            encodable: self.encodable }
    }
}

/// The views of a list of mirrors.
pub open spec fn mirror_views(v: Seq<Mirror>) -> Seq<MirrorView> {
    v.map_values(|m: Mirror| m.view_of())
}

/// The body field `Mcp-Name` is sourced from, by method.
pub open spec fn name_field(method: Seq<char>) -> Option<Seq<char>> {
    if method == "tools/call"@ || method == "prompts/get"@ {
        Some("name"@)
    } else if method == "resources/read"@ {
        Some("uri"@)
    } else {
        None
    }
}

/// A property path joined with dots.
pub open spec fn joined(path: Seq<Seq<char>>) -> Seq<char>
    decreases path.len(),
{
    if path.len() == 0 {
        Seq::empty()
    } else if path.len() == 1 {
        path[0]
    } else {
        joined(path.drop_last()) + "."@ + path.last()
    }
}

/// The `Mcp-Name` mirror a payload owes, when its body carries the source.
pub open spec fn name_mirror(p: Json, method: Seq<char>) -> Seq<MirrorView> {
    match name_field(method) {
        Some(field) => match p.at("params"@) {
            Some(params) => match params.at(field) {
                Some(v) => match v.text() {
                    Some(value) => seq![MirrorView { header: "mcp-name"@, label: "Mcp-Name"@,
                        source: "params."@ + field, value: value, encodable: true }],
                    None => Seq::empty(),
                },
                None => Seq::empty(),
            },
            None => Seq::empty(),
        },
        None => Seq::empty(),
    }
}

/// The `Mcp-Param-*` mirrors the designations `ds` ask of `arguments`: one per
/// designation whose argument is present with a header form.
pub open spec fn param_mirrors(arguments: Option<Json>, ds: Seq<DesignationView>) -> Seq<MirrorView>
    decreases ds.len(),
{
    if ds.len() == 0 {
        Seq::empty()
    } else {
        let d = ds.last();
        param_mirrors(arguments, ds.drop_last()) + match value_at(arguments, d.path) {
            Some(v) => match header_form(v) {
                Some(value) => seq![MirrorView { header: header_of(d.name), label: "Mcp-Param-"@ + d.name,
                    source: "params.arguments."@ + joined(d.path), value: value, encodable: true }],
                None => Seq::empty(),
            },
            None => Seq::empty(),
        }
    }
}

/// The designations a `tools/call` payload's tool declared.
pub open spec fn call_designations(p: Json, method: Seq<char>, designated: Seq<(Seq<char>, Seq<DesignationView>)>)
    -> Seq<DesignationView> {
    if method == "tools/call"@ {
        match p.at("params"@) {
            Some(params) => match params.at("name"@) {
                Some(n) => match n.text() {
                    Some(tool) => match designated_for(designated, tool) {
                        Some(ds) => ds,
                        None => Seq::empty(),
                    },
                    None => Seq::empty(),
                },
                None => Seq::empty(),
            },
            None => Seq::empty(),
        }
    } else {
        Seq::empty()
    }
}

/// The mirrors a POSTed payload owes, each sourced from a value the body
/// actually carries: `Mcp-Method`, `Mcp-Name`, then the designated parameters.
pub open spec fn mirrors_of(p: Json, designated: Seq<(Seq<char>, Seq<DesignationView>)>) -> Seq<MirrorView> {
    match payload_method(p) {
        None => Seq::empty(),
        Some(method) => seq![MirrorView { header: "mcp-method"@, label: "Mcp-Method"@, source: "method"@,
                value: method, encodable: false }]
            + name_mirror(p, method)
            + param_mirrors(match p.at("params"@) { Some(params) => params.at("arguments"@), None => None },
                call_designations(p, method, designated)),
    }
}

pub fn path_text(path: &Vec<String>) -> (r: String)
    ensures
        r@ == joined(texts(path@)),
{
    let mut out = String::new();
    let mut i: usize = 0;
    while i < path.len()
        invariant
            i <= path@.len(),
            out@ == joined(texts(path@.take(i as int))),
        decreases path@.len() - i,
    {
        proof {
            assert(texts(path@.take(i + 1)).drop_last() =~= texts(path@.take(i as int)));
            assert(texts(path@.take(i + 1)).last() == path@[i as int]@);
            reveal_strlit(".");
        }
        if i > 0 {
            push_text(&mut out, ".");
        } else {
            assert(texts(path@.take(1)) =~= seq![path@[0]@]);
        }
        push_text(&mut out, path[i].as_str());
        i = i + 1;
    }
    assert(path@.take(path@.len() as int) =~= path@);
    out
}

fn name_field_of(method: &str) -> (r: Option<&'static str>)
    ensures
        match r {
            Some(f) => name_field(method@) == Some(f@),
            None => name_field(method@) is None,
        },
{
    if text_eq(method, "tools/call") || text_eq(method, "prompts/get") {
        Some("name")
    } else if text_eq(method, "resources/read") {
        Some("uri")
    } else {
        None
    }
}

/// The mirrors `post` must satisfy, given the designations the trace declared.
pub fn mirrors(post: &Post<'_>, designated: &Vec<(String, Vec<Designation>)>) -> (r: Vec<Mirror>)
    requires
        tool_headers_agree(designated@),
    ensures
        mirror_views(r@) == mirrors_of(*post.payload, tool_views(designated@)),
{
    let mut out: Vec<Mirror> = Vec::new();
    let method = match post.method() {
        Some(m) => m,
        None => return out,
    };
    out.push(Mirror { header: owned("mcp-method"), label: owned("Mcp-Method"), source: owned("method"),
        value: owned(method), encodable: false });
    let params = post.payload.get("params");
    let ghost p = *post.payload;
    let ghost head = seq![MirrorView { header: "mcp-method"@, label: "Mcp-Method"@, source: "method"@,
        value: method@, encodable: false }];
    assert(mirror_views(out@) =~= head);
    if let Some(field) = name_field_of(method) {
        let value = match params {
            Some(pr) => match pr.get(field) {
                Some(v) => v.as_str(),
                None => None,
            },
            None => None,
        };
        if let Some(value) = value {
            let mut source = owned("params.");
            push_text(&mut source, field);
            out.push(Mirror { header: owned("mcp-name"), label: owned("Mcp-Name"), source,
                value: owned(value), encodable: true });
        }
    }
    assert(mirror_views(out@) =~= head + name_mirror(p, method@));
    let ghost before = mirror_views(out@);
    let tool = match params {
        Some(pr) => match pr.get("name") {
            Some(n) => n.as_str(),
            None => None,
        },
        None => None,
    };
    let declared: Option<&Vec<Designation>> = if text_eq(method, "tools/call") {
        match tool {
            Some(t) => lookup_designations(designated, t),
            None => None,
        }
    } else {
        None
    };
    let arguments = match params {
        Some(pr) => pr.get("arguments"),
        None => None,
    };
    let ghost args = match arguments { Some(x) => Some(*x), None => None };
    proof { reveal_strlit("tools/call"); }
    if let Some(ds) = declared {
        let ghost dv = designation_views(ds@);
        assert(dv == call_designations(p, method@, tool_views(designated@)));
        let mut q: usize = 0;
        while q < ds.len()
            invariant
                q <= ds@.len(),
                dv == designation_views(ds@),
                headers_agree(ds@),
                args == match arguments { Some(x) => Some(*x), None => None },
                mirror_views(out@) == before + param_mirrors(args, dv.take(q as int)),
            decreases ds@.len() - q,
        {
            proof { assert(dv.take(q + 1).drop_last() =~= dv.take(q as int)); }
            let d = &ds[q];
            assert(d.header_agrees());
            let value = crate::checks::features::walk_path(arguments, &d.path);
            let text = match value {
                Some(v) => header_text(v),
                None => None,
            };
            if let Some(text) = text {
                let mut label = owned("Mcp-Param-");
                push_text(&mut label, d.name.as_str());
                let mut source = owned("params.arguments.");
                let joined_path = path_text(&d.path);
                push_text(&mut source, joined_path.as_str());
                let ghost prev = out@;
                out.push(Mirror { header: owned(d.header.as_str()), label, source, value: text, encodable: true });
                assert(mirror_views(out@) =~= mirror_views(prev).push(mirror_views(out@).last()));
            }
            q = q + 1;
        }
        assert(dv.take(dv.len() as int) =~= dv);
    } else {
        assert(call_designations(p, method@, tool_views(designated@)) == Seq::<DesignationView>::empty());
    }
    assert(mirror_views(out@) =~= mirrors_of(p, tool_views(designated@)));
    out
}

} // verus!
