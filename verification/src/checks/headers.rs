//! The `2026-07-28` request-header clauses a client owns: which headers a POST
//! carries, that their values are encoded safely, and that a tool's
//! `x-mcp-header` annotations are usable at all. Every POST clause binds only
//! POSTs carrying a JSON-RPC request: header requirements for notification
//! POSTs are not defined by this revision.

use vstd::prelude::*;
use crate::checks::{FindingSink, entry_seqs};
use crate::checks::sites::{xsites, lemma_xsites_take, lemma_xsites_all, isites};
use crate::checks::designation::{Designation, DesignationView, designation_views, designations, designations_of,
    designations_by_tool, tool_views, tool_headers_agree, trace_designations, ascii_lower, lower_text,
    tool_definitions, tools_at, tools_of};
use crate::checks::transport::{Mirror, MirrorView, Post, mirror_views, mirrors, mirrors_of, posts, posts_are,
    trace_posts, http_headers, header_value, get_header, payload_is_request, body_version, compared, compare,
    Match, sentinel, sentinel_payload, safe_header, header_safe, miscased, is_miscased_sentinel};
use crate::context::TraceContext;
use crate::json::Json;
use crate::text::{owned, push_text, text_eq, starts_with, debug_text, debug_quoted, contains_text, texts, chars_of,
    is_alnum, ascii_alnum};
use crate::trace::TraceEvent;

verus! {

/// The payload a POST at `x` framed.
pub open spec fn post_payload(events: Seq<TraceEvent>, x: (int, int)) -> Json {
    events[x.1].payload().unwrap()
}

/// The headers a POST at `x` carried.
pub open spec fn post_headers(events: Seq<TraceEvent>, x: (int, int)) -> Seq<(String, String)> {
    http_headers(events[x.0])
}

/// A request POST without an `MCP-Protocol-Version` header.
pub open spec fn version_missing_site(events: Seq<TraceEvent>, x: (int, int)) -> Seq<Option<u64>> {
    if payload_is_request(post_payload(events, x))
        && header_value(post_headers(events, x), "mcp-protocol-version"@) is None {
        seq![Some(events[x.0].seq)]
    } else {
        Seq::empty()
    }
}

/// `TRAN-071`: every POST request carries an `MCP-Protocol-Version` header.
pub fn protocol_version_header_present(context: &TraceContext<'_>, sink: &mut FindingSink)
    ensures
        final(sink).check_id() == old(sink).check_id(),
        crate::checks::extends_with(old(sink).found(), final(sink).found(), "client POST lacks the MCP-Protocol-Version header"@),
        final(sink).subject_count() == old(sink).subject_count(),
        entry_seqs(final(sink).found()) == entry_seqs(old(sink).found())
            + xsites(trace_posts(context.trace()), |x: (int, int)| version_missing_site(context.trace(), x)),
{
    let ps = posts(context);
    let ghost events = context.trace();
    let ghost ixs = trace_posts(events);
    let ghost f = |x: (int, int)| version_missing_site(events, x);
    let mut k: usize = 0;
    while k < ps.len()
        invariant
            k <= ps@.len(),
            posts_are(ps@, events, ixs),
            f == (|x: (int, int)| version_missing_site(events, x)),
            sink.check_id() == old(sink).check_id(),
            crate::checks::extends_with(old(sink).found(), sink.found(), "client POST lacks the MCP-Protocol-Version header"@),
            sink.subject_count() == old(sink).subject_count(),
            entry_seqs(sink.found()) == entry_seqs(old(sink).found()) + xsites(ixs.take(k as int), f),
        decreases ps@.len() - k,
    {
        proof { lemma_xsites_take(ixs, f, k as int); }
        let post = &ps[k];
        assert(post.at as int == ixs[k as int].0);
        if post.is_request() && get_header(post.headers, "mcp-protocol-version").is_none() {
            sink.push(Some(post.seq), owned("client POST lacks the MCP-Protocol-Version header"));
        }
        k = k + 1;
    }
    proof { lemma_xsites_all(ixs, f); }
}

/// A request POST whose version header disagrees with its body's `_meta`.
pub open spec fn version_body_site(events: Seq<TraceEvent>, x: (int, int)) -> Seq<Option<u64>> {
    if payload_is_request(post_payload(events, x))
        && (header_value(post_headers(events, x), "mcp-protocol-version"@) matches Some(h)
        && body_version(post_payload(events, x)) matches Some(b) && h != b) {
        seq![Some(events[x.0].seq)]
    } else {
        Seq::empty()
    }
}

/// `TRAN-072`: the version header's value matches the body's `_meta` version.
/// Absence is `TRAN-071`'s finding, not a mismatch.
pub fn protocol_version_header_matches_body(context: &TraceContext<'_>, sink: &mut FindingSink)
    ensures
        final(sink).check_id() == old(sink).check_id(),
        final(sink).subject_count() == old(sink).subject_count(),
        entry_seqs(final(sink).found()) == entry_seqs(old(sink).found())
            + xsites(trace_posts(context.trace()), |x: (int, int)| version_body_site(context.trace(), x)),
{
    let ps = posts(context);
    let ghost events = context.trace();
    let ghost ixs = trace_posts(events);
    let ghost f = |x: (int, int)| version_body_site(events, x);
    let mut k: usize = 0;
    while k < ps.len()
        invariant
            k <= ps@.len(),
            posts_are(ps@, events, ixs),
            f == (|x: (int, int)| version_body_site(events, x)),
            sink.check_id() == old(sink).check_id(),
            sink.subject_count() == old(sink).subject_count(),
            entry_seqs(sink.found()) == entry_seqs(old(sink).found()) + xsites(ixs.take(k as int), f),
        decreases ps@.len() - k,
    {
        proof { lemma_xsites_take(ixs, f, k as int); }
        let post = &ps[k];
        assert(post.at as int == ixs[k as int].0);
        if post.is_request() {
            if let (Some(header), Some(body)) = (get_header(post.headers, "mcp-protocol-version"), post.body_protocol_version()) {
                if !text_eq(header.as_str(), body) {
                    let mut d = owned("MCP-Protocol-Version header is ");
                    let h = debug_text(header.as_str());
                    push_text(&mut d, h.as_str());
                    push_text(&mut d, " but the body's `_meta` protocol version is ");
                    let b = debug_text(body);
                    push_text(&mut d, b.as_str());
                    sink.push(Some(post.seq), d);
                }
            }
        }
        k = k + 1;
    }
    proof { lemma_xsites_all(ixs, f); }
}

/// The findings a rule yields over a POST's mirrors, in order.
pub open spec fn msites(ms: Seq<MirrorView>, f: spec_fn(MirrorView) -> Seq<Option<u64>>) -> Seq<Option<u64>>
    decreases ms.len(),
{
    if ms.len() == 0 {
        Seq::empty()
    } else {
        msites(ms.drop_last(), f) + f(ms.last())
    }
}

/// Whether a header name is a custom `Mcp-Param-*` header.
pub open spec fn is_param_header(h: Seq<char>) -> bool {
    "mcp-param-"@.len() <= h.len() && h.take("mcp-param-"@.len() as int) == "mcp-param-"@
}

/// A standard mirror the POST lacks, or carries with a value that disagrees.
pub open spec fn metadata_hit(headers: Seq<(String, String)>, seq: u64, m: MirrorView) -> Seq<Option<u64>> {
    if !is_param_header(m.header) && (match header_value(headers, m.header) {
        None => true,
        Some(sent) => compared(sent, m.value) == Match::Mismatch,
    }) {
        seq![Some(seq)]
    } else {
        Seq::empty()
    }
}

/// The standard-header findings of a request POST.
pub open spec fn metadata_site(events: Seq<TraceEvent>, x: (int, int)) -> Seq<Option<u64>> {
    if payload_is_request(post_payload(events, x)) {
        msites(mirrors_of(post_payload(events, x), trace_designations(events)),
            |m: MirrorView| metadata_hit(post_headers(events, x), events[x.0].seq, m))
    } else {
        Seq::empty()
    }
}

/// `TRAN-058`: the standard request metadata headers accompany each POST
/// request, each carrying the value of the body field it is defined by.
pub fn request_metadata_headers(context: &TraceContext<'_>, sink: &mut FindingSink)
    ensures
        final(sink).check_id() == old(sink).check_id(),
        final(sink).subject_count() == old(sink).subject_count(),
        entry_seqs(final(sink).found()) == entry_seqs(old(sink).found())
            + xsites(trace_posts(context.trace()), |x: (int, int)| metadata_site(context.trace(), x)),
{
    let designated = designations_by_tool(context);
    let ps = posts(context);
    let ghost events = context.trace();
    let ghost ixs = trace_posts(events);
    let ghost f = |x: (int, int)| metadata_site(events, x);
    let mut k: usize = 0;
    proof { reveal_strlit("mcp-param-"); }
    while k < ps.len()
        invariant
            k <= ps@.len(),
            posts_are(ps@, events, ixs),
            tool_views(designated@) == trace_designations(events),
            tool_headers_agree(designated@),
            f == (|x: (int, int)| metadata_site(events, x)),
            sink.check_id() == old(sink).check_id(),
            sink.subject_count() == old(sink).subject_count(),
            entry_seqs(sink.found()) == entry_seqs(old(sink).found()) + xsites(ixs.take(k as int), f),
        decreases ps@.len() - k,
    {
        proof { lemma_xsites_take(ixs, f, k as int); }
        let post = &ps[k];
        assert(post.at as int == ixs[k as int].0);
        let ghost before = entry_seqs(sink.found());
        if post.is_request() {
            let ms = mirrors(post, &designated);
            let ghost mv = mirror_views(ms@);
            let ghost g = |m: MirrorView| metadata_hit(post.headers@, post.seq, m);
            let mut q: usize = 0;
            while q < ms.len()
                invariant
                    q <= ms@.len(),
                    mv == mirror_views(ms@),
                    g == (|m: MirrorView| metadata_hit(post.headers@, post.seq, m)),
                    sink.check_id() == old(sink).check_id(),
                    sink.subject_count() == old(sink).subject_count(),
                    entry_seqs(sink.found()) == before + msites(mv.take(q as int), g),
                decreases ms@.len() - q,
            {
                proof { assert(mv.take(q + 1).drop_last() =~= mv.take(q as int)); }
                let mirror = &ms[q];
                if !starts_with(mirror.header.as_str(), "mcp-param-") {
                    match get_header(post.headers, mirror.header.as_str()) {
                        None => {
                            let mut d = owned("POST for `");
                            push_text(&mut d, post.method().unwrap_or(""));
                            push_text(&mut d, "` lacks the required `");
                            push_text(&mut d, mirror.label.as_str());
                            push_text(&mut d, "` header");
                            sink.push(Some(post.seq), d);
                        },
                        Some(sent) => {
                            if compare(sent.as_str(), mirror.value.as_str()) == Match::Mismatch {
                                let mut d = owned("`");
                                push_text(&mut d, mirror.label.as_str());
                                push_text(&mut d, "` header is ");
                                let s = debug_text(sent.as_str());
                                push_text(&mut d, s.as_str());
                                push_text(&mut d, " but `");
                                push_text(&mut d, mirror.source.as_str());
                                push_text(&mut d, "` is ");
                                let v = debug_text(mirror.value.as_str());
                                push_text(&mut d, v.as_str());
                                sink.push(Some(post.seq), d);
                            }
                        },
                    }
                }
                q = q + 1;
            }
            assert(mv.take(mv.len() as int) =~= mv);
        }
        k = k + 1;
    }
    proof { lemma_xsites_all(ixs, f); }
}

/// Whether the header at `k` is the one recorded last under its name.
pub open spec fn effective(headers: Seq<(String, String)>, k: int) -> bool {
    forall|j: int| k < j < headers.len() ==> #[trigger] ascii_lower(headers[j].0@) != ascii_lower(headers[k].0@)
}

/// Whether a (lowercased) header name is one whose value the sentinel may
/// carry: `Mcp-Name` and every `Mcp-Param-*`.
pub open spec fn encodable_name(h: Seq<char>) -> bool {
    h == "mcp-name"@ || is_param_header(h)
}

/// The findings a rule yields over a POST's effective encodable headers.
pub open spec fn encodable_sites(headers: Seq<(String, String)>, seq: u64, bad: spec_fn(Seq<char>) -> bool)
    -> Seq<Option<u64>> {
    isites(headers.len() as nat, |k: int| if effective(headers, k) && encodable_name(ascii_lower(headers[k].0@))
        && bad(headers[k].1@) { seq![Some(seq)] } else { Seq::empty() })
}

/// A value that is neither encoded (a sentinel whose payload is itself safe)
/// nor miscased, and that cannot be carried plainly.
pub open spec fn unencoded(v: Seq<char>) -> bool {
    !((sentinel(v) matches Some(p) && safe_header(p)) || miscased(v)) && !safe_header(v)
}

/// The unencoded-value findings of a request POST.
pub open spec fn encoding_site(events: Seq<TraceEvent>, x: (int, int)) -> Seq<Option<u64>> {
    if payload_is_request(post_payload(events, x)) {
        encodable_sites(post_headers(events, x), events[x.0].seq, |v: Seq<char>| unencoded(v))
    } else {
        Seq::empty()
    }
}

/// The miscased-sentinel findings of a request POST.
pub open spec fn case_site(events: Seq<TraceEvent>, x: (int, int)) -> Seq<Option<u64>> {
    if payload_is_request(post_payload(events, x)) {
        encodable_sites(post_headers(events, x), events[x.0].seq, |v: Seq<char>| miscased(v))
    } else {
        Seq::empty()
    }
}

pub fn is_effective(headers: &Vec<(String, String)>, k: usize) -> (r: bool)
    requires
        k < headers@.len(),
    ensures
        r == effective(headers@, k as int),
{
    let mine = lower_text(headers[k].0.as_str());
    let n = headers.len();
    let mut j = k + 1;
    while j < headers.len()
        invariant
            k < j <= headers@.len(),
            mine@ == ascii_lower(headers@[k as int].0@),
            forall|q: int| k < q < j ==> #[trigger] ascii_lower(headers@[q].0@) != ascii_lower(headers@[k as int].0@),
        decreases headers@.len() - j,
    {
        let other = lower_text(headers[j].0.as_str());
        if text_eq(other.as_str(), mine.as_str()) {
            return false;
        }
        j = j + 1;
    }
    true
}

fn is_encodable_name(h: &str) -> (r: bool)
    ensures
        r == encodable_name(h@),
{
    proof { reveal_strlit("mcp-param-"); }
    text_eq(h, "mcp-name") || starts_with(h, "mcp-param-")
}

/// Which encoding rule a header pass judges.
#[derive(Clone, Copy, Debug, PartialEq, Eq, Structural)]
pub enum EncodingRule {
    /// `TRAN-077`/`TRAN-086`/`TRAN-087`: a value that cannot be carried plainly
    /// is carried Base64-encoded.
    Encoded,
    /// `TRAN-089`: the sentinel markers appear exactly as shown.
    MarkerCase,
}

/// What a rule finds wrong with a header value.
pub open spec fn rule_bad(rule: EncodingRule) -> spec_fn(Seq<char>) -> bool {
    match rule {
        EncodingRule::Encoded => |v: Seq<char>| unencoded(v),
        EncodingRule::MarkerCase => |v: Seq<char>| miscased(v),
    }
}

fn header_pass(post: &Post<'_>, rule: EncodingRule, sink: &mut FindingSink)
    ensures
        final(sink).check_id() == old(sink).check_id(),
        final(sink).subject_count() == old(sink).subject_count(),
        entry_seqs(final(sink).found()) == entry_seqs(old(sink).found())
            + encodable_sites(post.headers@, post.seq, rule_bad(rule)),
{
    let headers = post.headers;
    let ghost hs = headers@;
    let ghost g = |k: int| if effective(hs, k) && encodable_name(ascii_lower(hs[k].0@)) && rule_bad(rule)(hs[k].1@) {
        seq![Some(post.seq)] } else { Seq::empty() };
    let mut k: usize = 0;
    while k < headers.len()
        invariant
            k <= hs.len(),
            hs == headers@,
            g == (|k: int| if effective(hs, k) && encodable_name(ascii_lower(hs[k].0@)) && rule_bad(rule)(hs[k].1@) {
                seq![Some(post.seq)] } else { Seq::empty() }),
            sink.check_id() == old(sink).check_id(),
            sink.subject_count() == old(sink).subject_count(),
            entry_seqs(sink.found()) == entry_seqs(old(sink).found()) + isites(k as nat, g),
        decreases hs.len() - k,
    {
        let name = lower_text(headers[k].0.as_str());
        let value = headers[k].1.as_str();
        if is_effective(headers, k) && is_encodable_name(name.as_str()) {
            match rule {
                EncodingRule::Encoded => {
                    let encoded = match sentinel_payload(value) {
                        Some(p) => header_safe(p),
                        None => false,
                    };
                    if !(encoded || is_miscased_sentinel(value)) && !header_safe(value) {
                        let mut d = owned("header `");
                        push_text(&mut d, name.as_str());
                        push_text(&mut d, "` carries ");
                        let v = debug_text(value);
                        push_text(&mut d, v.as_str());
                        push_text(&mut d, " unencoded; a value that is not safely representable in ASCII must use the Base64 sentinel");
                        sink.push(Some(post.seq), d);
                    }
                },
                EncodingRule::MarkerCase => {
                    if is_miscased_sentinel(value) {
                        let mut d = owned("header `");
                        push_text(&mut d, name.as_str());
                        push_text(&mut d, "` carries ");
                        let v = debug_text(value);
                        push_text(&mut d, v.as_str());
                        push_text(&mut d, ", whose Base64 sentinel markers are miscased; they are case-sensitive and must be lowercase");
                        sink.push(Some(post.seq), d);
                    }
                },
            }
        }
        k = k + 1;
    }
}

/// `TRAN-077`/`TRAN-086`/`TRAN-087`: a value of `Mcp-Name` or an `Mcp-Param-*`
/// that cannot be carried plainly is carried Base64-encoded. Miscased markers
/// are `TRAN-089`'s finding, not this one's.
pub fn header_value_encoding(context: &TraceContext<'_>, sink: &mut FindingSink)
    ensures
        final(sink).check_id() == old(sink).check_id(),
        final(sink).subject_count() == old(sink).subject_count(),
        entry_seqs(final(sink).found()) == entry_seqs(old(sink).found())
            + xsites(trace_posts(context.trace()), |x: (int, int)| encoding_site(context.trace(), x)),
{
    let ps = posts(context);
    let ghost events = context.trace();
    let ghost ixs = trace_posts(events);
    let ghost f = |x: (int, int)| encoding_site(events, x);
    let mut k: usize = 0;
    while k < ps.len()
        invariant
            k <= ps@.len(),
            posts_are(ps@, events, ixs),
            f == (|x: (int, int)| encoding_site(events, x)),
            sink.check_id() == old(sink).check_id(),
            sink.subject_count() == old(sink).subject_count(),
            entry_seqs(sink.found()) == entry_seqs(old(sink).found()) + xsites(ixs.take(k as int), f),
        decreases ps@.len() - k,
    {
        proof { lemma_xsites_take(ixs, f, k as int); }
        let post = &ps[k];
        assert(post.at as int == ixs[k as int].0);
        if post.is_request() {
            header_pass(post, EncodingRule::Encoded, sink);
        }
        k = k + 1;
    }
    proof { lemma_xsites_all(ixs, f); }
}

/// `TRAN-089`: the sentinel markers appear exactly as shown, in lowercase.
pub fn sentinel_marker_case(context: &TraceContext<'_>, sink: &mut FindingSink)
    ensures
        final(sink).check_id() == old(sink).check_id(),
        final(sink).subject_count() == old(sink).subject_count(),
        entry_seqs(final(sink).found()) == entry_seqs(old(sink).found())
            + xsites(trace_posts(context.trace()), |x: (int, int)| case_site(context.trace(), x)),
{
    let ps = posts(context);
    let ghost events = context.trace();
    let ghost ixs = trace_posts(events);
    let ghost f = |x: (int, int)| case_site(events, x);
    let mut k: usize = 0;
    while k < ps.len()
        invariant
            k <= ps@.len(),
            posts_are(ps@, events, ixs),
            f == (|x: (int, int)| case_site(events, x)),
            sink.check_id() == old(sink).check_id(),
            sink.subject_count() == old(sink).subject_count(),
            entry_seqs(sink.found()) == entry_seqs(old(sink).found()) + xsites(ixs.take(k as int), f),
        decreases ps@.len() - k,
    {
        proof { lemma_xsites_take(ixs, f, k as int); }
        let post = &ps[k];
        assert(post.at as int == ixs[k as int].0);
        if post.is_request() {
            header_pass(post, EncodingRule::MarkerCase, sink);
        }
        k = k + 1;
    }
    proof { lemma_xsites_all(ixs, f); }
}

/// An encodable mirror whose header repeats a sentinel-shaped body value
/// verbatim.
pub open spec fn pattern_hit(headers: Seq<(String, String)>, seq: u64, m: MirrorView) -> Seq<Option<u64>> {
    if m.encodable && (header_value(headers, m.header) matches Some(sent)
        && compared(sent, m.value) == Match::UnencodedSentinel) {
        seq![Some(seq)]
    } else {
        Seq::empty()
    }
}

/// A custom mirror the POST does not carry.
pub open spec fn mirrored_hit(headers: Seq<(String, String)>, seq: u64, m: MirrorView) -> Seq<Option<u64>> {
    if is_param_header(m.header) && header_value(headers, m.header) is None {
        seq![Some(seq)]
    } else {
        Seq::empty()
    }
}

/// Which mirror rule a pass judges.
#[derive(Clone, Copy, Debug, PartialEq, Eq, Structural)]
pub enum MirrorRule {
    /// `TRAN-092`: a plain value matching the sentinel pattern is encoded too.
    Pattern,
    /// `TRAN-079`: designated parameters are mirrored into `Mcp-Param-*`.
    Mirrored,
}

/// What a mirror rule finds for one mirror.
pub open spec fn mirror_hit(rule: MirrorRule, headers: Seq<(String, String)>, seq: u64, m: MirrorView) -> Seq<Option<u64>> {
    match rule {
        MirrorRule::Pattern => pattern_hit(headers, seq, m),
        MirrorRule::Mirrored => mirrored_hit(headers, seq, m),
    }
}

/// The findings of a mirror rule for a request POST.
pub open spec fn mirror_rule_site(rule: MirrorRule, events: Seq<TraceEvent>, x: (int, int)) -> Seq<Option<u64>> {
    if payload_is_request(post_payload(events, x)) {
        msites(mirrors_of(post_payload(events, x), trace_designations(events)),
            |m: MirrorView| mirror_hit(rule, post_headers(events, x), events[x.0].seq, m))
    } else {
        Seq::empty()
    }
}

fn mirror_pass(context: &TraceContext<'_>, rule: MirrorRule, sink: &mut FindingSink)
    ensures
        final(sink).check_id() == old(sink).check_id(),
        final(sink).subject_count() == old(sink).subject_count(),
        entry_seqs(final(sink).found()) == entry_seqs(old(sink).found())
            + xsites(trace_posts(context.trace()), |x: (int, int)| mirror_rule_site(rule, context.trace(), x)),
{
    let designated = designations_by_tool(context);
    let ps = posts(context);
    let ghost events = context.trace();
    let ghost ixs = trace_posts(events);
    let ghost f = |x: (int, int)| mirror_rule_site(rule, events, x);
    let mut k: usize = 0;
    proof { reveal_strlit("mcp-param-"); }
    while k < ps.len()
        invariant
            k <= ps@.len(),
            posts_are(ps@, events, ixs),
            tool_views(designated@) == trace_designations(events),
            tool_headers_agree(designated@),
            f == (|x: (int, int)| mirror_rule_site(rule, events, x)),
            sink.check_id() == old(sink).check_id(),
            sink.subject_count() == old(sink).subject_count(),
            entry_seqs(sink.found()) == entry_seqs(old(sink).found()) + xsites(ixs.take(k as int), f),
        decreases ps@.len() - k,
    {
        proof { lemma_xsites_take(ixs, f, k as int); }
        let post = &ps[k];
        assert(post.at as int == ixs[k as int].0);
        let ghost before = entry_seqs(sink.found());
        if post.is_request() {
            let ms = mirrors(post, &designated);
            let ghost mv = mirror_views(ms@);
            let ghost g = |m: MirrorView| mirror_hit(rule, post.headers@, post.seq, m);
            let mut q: usize = 0;
            while q < ms.len()
                invariant
                    q <= ms@.len(),
                    mv == mirror_views(ms@),
                    g == (|m: MirrorView| mirror_hit(rule, post.headers@, post.seq, m)),
                    sink.check_id() == old(sink).check_id(),
                    sink.subject_count() == old(sink).subject_count(),
                    entry_seqs(sink.found()) == before + msites(mv.take(q as int), g),
                decreases ms@.len() - q,
            {
                proof { assert(mv.take(q + 1).drop_last() =~= mv.take(q as int)); }
                let mirror = &ms[q];
                let sent = get_header(post.headers, mirror.header.as_str());
                match rule {
                    MirrorRule::Pattern => {
                        if mirror.encodable {
                            if let Some(sent) = sent {
                                if compare(sent.as_str(), mirror.value.as_str()) == Match::UnencodedSentinel {
                                    let mut d = owned("`");
                                    push_text(&mut d, mirror.label.as_str());
                                    push_text(&mut d, "` carries ");
                                    let t = debug_text(sent.as_str());
                                    push_text(&mut d, t.as_str());
                                    push_text(&mut d, " verbatim; a value matching the sentinel pattern must itself be Base64-encoded to stay unambiguous");
                                    sink.push(Some(post.seq), d);
                                }
                            }
                        }
                    },
                    MirrorRule::Mirrored => {
                        if starts_with(mirror.header.as_str(), "mcp-param-") && sent.is_none() {
                            let mut d = owned("`tools/call` supplies `");
                            push_text(&mut d, mirror.source.as_str());
                            push_text(&mut d, "`, which the tool designates for header `");
                            push_text(&mut d, mirror.label.as_str());
                            push_text(&mut d, "`, but the POST does not carry it");
                            sink.push(Some(post.seq), d);
                        }
                    },
                }
                q = q + 1;
            }
            assert(mv.take(mv.len() as int) =~= mv);
        }
        k = k + 1;
    }
    proof { lemma_xsites_all(ixs, f); }
}

/// `TRAN-092`: a plain value matching the sentinel pattern is encoded too: a
/// header repeating such a body value verbatim is the finding.
pub fn sentinel_pattern_encoded(context: &TraceContext<'_>, sink: &mut FindingSink)
    ensures
        final(sink).check_id() == old(sink).check_id(),
        final(sink).subject_count() == old(sink).subject_count(),
        entry_seqs(final(sink).found()) == entry_seqs(old(sink).found()) + xsites(trace_posts(context.trace()),
            |x: (int, int)| mirror_rule_site(MirrorRule::Pattern, context.trace(), x)),
{
    mirror_pass(context, MirrorRule::Pattern, sink);
}

/// The `Mcp-Param-*` mirror findings: none when the trace declared no
/// designation at all.
pub open spec fn mirrored_sites(events: Seq<TraceEvent>) -> Seq<Option<u64>> {
    if trace_designations(events).len() == 0 {
        Seq::empty()
    } else {
        xsites(trace_posts(events), |x: (int, int)| mirror_rule_site(MirrorRule::Mirrored, events, x))
    }
}

/// `TRAN-079`: designated tool parameters are mirrored into `Mcp-Param-*`.
/// Binds only where the trace also carried the tool list that declared them.
pub fn x_mcp_header_mirrored(context: &TraceContext<'_>, sink: &mut FindingSink)
    ensures
        final(sink).check_id() == old(sink).check_id(),
        final(sink).subject_count() == old(sink).subject_count(),
        entry_seqs(final(sink).found()) == entry_seqs(old(sink).found()) + mirrored_sites(context.trace()),
{
    let designated = designations_by_tool(context);
    if designated.len() == 0 {
        assert(entry_seqs(old(sink).found()) + mirrored_sites(context.trace()) =~= entry_seqs(old(sink).found()));
        return;
    }
    mirror_pass(context, MirrorRule::Mirrored, sink);
}

/// RFC 9110 `tchar`: a letter, a digit, or one of `` !#$%&'*+-.^_`|~ ``.
pub open spec fn tchar(c: char) -> bool {
    is_alnum(c) || c == '!' || c == '#' || c == '$' || c == '%' || c == '&' || c == '\'' || c == '*'
        || c == '+' || c == '-' || c == '.' || c == '^' || c == '_' || c == '`' || c == '|' || c == '~'
}

/// Whether `name` is an HTTP field-name token: one or more `tchar`.
pub open spec fn is_token(name: Seq<char>) -> bool {
    forall|i: int| 0 <= i < name.len() ==> #[trigger] tchar(name[i])
}

/// The JSON Schema types an `x-mcp-header` annotation may sit on.
pub open spec fn primitive_type(t: Seq<char>) -> bool {
    t == "integer"@ || t == "string"@ || t == "boolean"@
}

/// Every way a designation breaks `TRAN-080`, as finding-ready clauses.
pub open spec fn fault_reasons(d: DesignationView, duplicate: bool) -> Seq<Seq<char>> {
    (if d.name.len() == 0 {
        seq!["is empty"@]
    } else if !is_token(d.name) {
        seq!["is not an HTTP field-name token (`1*tchar`, RFC 9110 §5.1)"@]
    } else {
        Seq::empty()
    }) + (if duplicate {
        seq!["repeats an earlier `x-mcp-header` in this `inputSchema`; the values must be case-insensitively unique"@]
    } else {
        Seq::empty()
    }) + (match d.declared_type {
        Some(t) => if !primitive_type(t) {
            seq!["annotates a `"@ + t + "` property; only integer, string and boolean parameters may carry one"@]
        } else {
            Seq::empty()
        },
        None => Seq::empty(),
    })
}

fn is_tchar(c: char) -> (r: bool)
    ensures
        r == tchar(c),
{
    ascii_alnum(c) || c == '!' || c == '#' || c == '$' || c == '%' || c == '&' || c == '\'' || c == '*'
        || c == '+' || c == '-' || c == '.' || c == '^' || c == '_' || c == '`' || c == '|' || c == '~'
}

fn token(name: &str) -> (r: bool)
    ensures
        r == is_token(name@),
{
    let cs = chars_of(name);
    let mut i: usize = 0;
    while i < cs.len()
        invariant
            i <= cs@.len(),
            cs@ == name@,
            forall|j: int| 0 <= j < i ==> #[trigger] tchar(name@[j]),
        decreases cs@.len() - i,
    {
        if !is_tchar(cs[i]) {
            assert(!tchar(name@[i as int]));
            return false;
        }
        i = i + 1;
    }
    true
}

/// Every way `designation` breaks `TRAN-080`: a name that is empty or not a
/// field-name token, a name repeating an earlier one case-insensitively, and a
/// declared type that is not a primitive.
pub fn annotation_faults(designation: &Designation, duplicate: bool) -> (r: Vec<String>)
    ensures
        texts(r@) == fault_reasons(designation.view_of(), duplicate),
{
    let mut faults: Vec<String> = Vec::new();
    let name = designation.name.as_str();
    if name.unicode_len() == 0 {
        faults.push(owned("is empty"));
    } else if !token(name) {
        faults.push(owned("is not an HTTP field-name token (`1*tchar`, RFC 9110 §5.1)"));
    }
    let ghost first = texts(faults@);
    if duplicate {
        faults.push(owned("repeats an earlier `x-mcp-header` in this `inputSchema`; the values must be case-insensitively unique"));
    }
    let ghost second = texts(faults@);
    if let Some(declared) = &designation.declared_type {
        let t = declared.as_str();
        if !(text_eq(t, "integer") || text_eq(t, "string") || text_eq(t, "boolean")) {
            let mut reason = owned("annotates a `");
            push_text(&mut reason, t);
            push_text(&mut reason, "` property; only integer, string and boolean parameters may carry one");
            let ghost before = faults@;
            faults.push(reason);
            assert(texts(faults@) =~= texts(before).push(reason@));
        }
    }
    assert(texts(faults@) =~= fault_reasons(designation.view_of(), duplicate));
    faults
}

/// The lowercased names of a list of designations.
pub open spec fn lowered_names(ds: Seq<DesignationView>) -> Seq<Seq<char>> {
    ds.map_values(|d: DesignationView| ascii_lower(d.name))
}

/// The annotation findings of one `inputSchema`'s designations, at `seq`.
pub open spec fn name_sites(ds: Seq<DesignationView>, seq: u64) -> Seq<Option<u64>>
    decreases ds.len(),
{
    if ds.len() == 0 {
        Seq::empty()
    } else {
        name_sites(ds.drop_last(), seq) + fault_reasons(ds.last(),
            lowered_names(ds.drop_last()).contains(ascii_lower(ds.last().name))).map_values(|r: Seq<char>| Some(seq))
    }
}

/// The annotation findings over every tool definition.
pub open spec fn tool_name_sites(defs: Seq<(u64, Json)>) -> Seq<Option<u64>>
    decreases defs.len(),
{
    if defs.len() == 0 {
        Seq::empty()
    } else {
        tool_name_sites(defs.drop_last()) + match defs.last().1.at("inputSchema"@) {
            Some(schema) => name_sites(designations_of(schema, Seq::empty()), defs.last().0),
            None => Seq::empty(),
        }
    }
}

fn check_schema(schema: &Json, seq: u64, sink: &mut FindingSink)
    ensures
        final(sink).check_id() == old(sink).check_id(),
        final(sink).subject_count() == old(sink).subject_count(),
        entry_seqs(final(sink).found()) == entry_seqs(old(sink).found())
            + name_sites(designations_of(*schema, Seq::empty()), seq),
{
    let ds = designations(schema);
    let ghost dv = designation_views(ds@);
    let ghost before = entry_seqs(sink.found());
    let mut seen: Vec<String> = Vec::new();
    let mut q: usize = 0;
    while q < ds.len()
        invariant
            q <= ds@.len(),
            dv == designation_views(ds@),
            texts(seen@) == lowered_names(dv.take(q as int)),
            sink.check_id() == old(sink).check_id(),
            sink.subject_count() == old(sink).subject_count(),
            entry_seqs(sink.found()) == before + name_sites(dv.take(q as int), seq),
        decreases ds@.len() - q,
    {
        proof { assert(dv.take(q + 1).drop_last() =~= dv.take(q as int)); }
        let d = &ds[q];
        let lowered = lower_text(d.name.as_str());
        let duplicate = contains_text(&seen, lowered.as_str());
        let reasons = annotation_faults(d, duplicate);
        let ghost mid = entry_seqs(sink.found());
        let ghost rs = texts(reasons@);
        let path = crate::checks::transport::path_text(&d.path);
        let shown = debug_text(d.name.as_str());
        let mut r: usize = 0;
        while r < reasons.len()
            invariant
                r <= reasons@.len(),
                rs == texts(reasons@),
                sink.check_id() == old(sink).check_id(),
                sink.subject_count() == old(sink).subject_count(),
                entry_seqs(sink.found()) == mid + rs.take(r as int).map_values(|x: Seq<char>| Some(seq)),
            decreases reasons@.len() - r,
        {
            let mut text = owned("property `");
            push_text(&mut text, path.as_str());
            push_text(&mut text, "` designates `x-mcp-header` ");
            push_text(&mut text, shown.as_str());
            push_text(&mut text, ", which ");
            push_text(&mut text, reasons[r].as_str());
            sink.push(Some(seq), text);
            assert(rs.take(r + 1).map_values(|x: Seq<char>| Some(seq))
                =~= rs.take(r as int).map_values(|x: Seq<char>| Some(seq)).push(Some(seq)));
            r = r + 1;
        }
        assert(rs.take(rs.len() as int) =~= rs);
        let ghost prev = seen@;
        seen.push(lowered);
        assert(texts(seen@) =~= texts(prev).push(ascii_lower(d.name@)));
        assert(lowered_names(dv.take(q + 1)) =~= lowered_names(dv.take(q as int)).push(ascii_lower(d.name@)));
        q = q + 1;
    }
    assert(dv.take(dv.len() as int) =~= dv);
}

/// `TRAN-080`: an `x-mcp-header` annotation is usable as a header name:
/// non-empty, a field-name token, case-insensitively unique within one
/// `inputSchema`, and on a primitive-typed property only.
pub fn x_mcp_header_name_valid(context: &TraceContext<'_>, sink: &mut FindingSink)
    ensures
        final(sink).check_id() == old(sink).check_id(),
        final(sink).subject_count() == old(sink).subject_count(),
        entry_seqs(final(sink).found()) == entry_seqs(old(sink).found()) + tool_name_sites(tool_definitions(context.trace())),
{
    let ghost events = context.trace();
    let n = context.len();
    let mut i: usize = 0;
    while i < n
        invariant
            n == events.len(),
            events == context.trace(),
            i <= n,
            sink.check_id() == old(sink).check_id(),
            sink.subject_count() == old(sink).subject_count(),
            entry_seqs(sink.found()) == entry_seqs(old(sink).found()) + tool_name_sites(tool_definitions(events.take(i as int))),
        decreases n - i,
    {
        let ghost prefix = tool_definitions(events.take(i as int));
        let ghost seq = events[i as int].seq;
        proof {
            assert(events.take(i + 1).drop_last() =~= events.take(i as int));
            assert(events.take(i + 1).last() == events[i as int]);
        }
        if let Some(tools) = tools_at(context, i) {
            let ghost all = tools_of(events[i as int]).map_values(|t: Json| (seq, t));
            let mut k: usize = 0;
            assert(prefix + all.take(0) =~= prefix);
            while k < tools.len()
                invariant
                    k <= tools@.len(),
                    all == tools@.map_values(|t: Json| (seq, t)),
                    seq == context.trace()[i as int].seq,
                    i < context.trace().len(),
                    sink.check_id() == old(sink).check_id(),
                    sink.subject_count() == old(sink).subject_count(),
                    entry_seqs(sink.found()) == entry_seqs(old(sink).found()) + tool_name_sites(prefix + all.take(k as int)),
                decreases tools@.len() - k,
            {
                proof {
                    assert((prefix + all.take(k + 1)).drop_last() =~= prefix + all.take(k as int));
                    assert((prefix + all.take(k + 1)).last() == (seq, tools@[k as int]));
                }
                if let Some(schema) = tools[k].get("inputSchema") {
                    check_schema(schema, context.event(i).seq, sink);
                }
                k = k + 1;
            }
            assert(all.take(tools@.len() as int) =~= all);
            assert(tool_definitions(events.take(i + 1)) == prefix + all);
        } else {
            assert(tool_definitions(events.take(i + 1)) =~= prefix);
        }
        i = i + 1;
    }
    assert(events.take(n as int) =~= events);
}

} // verus!
