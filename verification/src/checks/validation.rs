//! The `2026-07-28` rejection clauses a server owns: what it must refuse, with
//! which JSON-RPC code, and under which HTTP status. These judge answers: a
//! malformed POST is the client's defect; what is reported here is the server
//! having seen it and answered anyway.

use vstd::prelude::*;
use crate::checks::{FindingSink, entry_seqs, entry_views};
use crate::checks::sites::{entries, lemma_entries_take, lemma_entries_all};
use crate::checks::sites::{sites, lemma_sites_take, lemma_sites_all, xsites, lemma_xsites_take, lemma_xsites_all};
use crate::checks::caching::x_result;
use crate::checks::capabilities::discover_ixs;
use crate::checks::designation::{Designation, designations_by_tool, tool_views, tool_headers_agree,
    trace_designations, DesignationView, header_of, ascii_lower, lower_text};
use crate::checks::headers::{post_payload, post_headers, msites, effective, is_effective};
use crate::checks::meta::non_400_site;
use crate::checks::support::{status_before, http_status_for};
use crate::checks::transport::{Post, MirrorView, mirrors, mirrors_of, mirror_views, posts, posts_are, trace_posts,
    header_value, get_header, body_version, compared, compare, Match, sentinel, sentinel_payload, safe_header,
    header_safe};
use crate::context::{TraceContext, exchange_ixs, exchanges_are};
use crate::json::Json;
use crate::text::{signed_decimal, decimal, owned, push_text, text_eq, debug_text, contains_text, texts, i64_text, u64_text};
use crate::trace::TraceEvent;

verus! {

/// The JSON-RPC error code an event's message carries, when it is a 64-bit
/// integer.
pub open spec fn answer_code(e: TraceEvent) -> Option<int> {
    match e.payload() {
        Some(p) => match p.at("error"@) {
            Some(err) => match err.at("code"@) {
                Some(c) => c.int_value(),
                None => None,
            },
            None => None,
        },
        None => None,
    }
}

fn answer_code_of(e: &TraceEvent) -> (r: Option<i64>)
    ensures
        match r {
            Some(c) => answer_code(*e) == Some(c as int),
            None => answer_code(*e) is None,
        },
{
    match e.message_payload() {
        Some(p) => match p.get("error") {
            Some(err) => match err.get("code") {
                Some(c) => c.as_i64(),
                None => None,
            },
            None => None,
        },
        None => None,
    }
}

/// How an answer is named in findings: `error` and its code, or `a result`.
pub open spec fn answer_label(code: Option<i64>) -> Seq<char> {
    match code {
        Some(c) => "error "@ + crate::text::signed_decimal(c as int),
        None => "a result"@,
    }
}

fn push_label(d: &mut String, code: Option<i64>)
    ensures
        final(d)@ == old(d)@ + answer_label(code),
{
    match code {
        Some(c) => {
            push_text(d, "error ");
            let t = i64_text(c);
            push_text(d, t.as_str());
        },
        None => push_text(d, "a result"),
    }
}

/// The POST that framed the message with `seq`: the last one recorded for it.
pub open spec fn post_for(events: Seq<TraceEvent>, ps: Seq<(int, int)>, seq: u64) -> Option<(int, int)>
    decreases ps.len(),
{
    if ps.len() == 0 {
        None
    } else if events[ps.last().1].seq == seq {
        Some(ps.last())
    } else {
        post_for(events, ps.drop_last(), seq)
    }
}

fn post_for_seq<'a, 'b>(ps: &'b Vec<Post<'a>>, seq: u64, events: Ghost<Seq<TraceEvent>>, ixs: Ghost<Seq<(int, int)>>)
    -> (r: Option<&'b Post<'a>>)
    requires
        posts_are(ps@, events@, ixs@),
    ensures
        match r {
            Some(p) => post_for(events@, ixs@, seq) == Some((p.at as int, p.message_at as int))
                && p.seq == events@[p.at as int].seq
                && p.headers@ == crate::checks::transport::http_headers(events@[p.at as int])
                && events@[p.message_at as int].payload() == Some(*p.payload)
                && 0 <= p.at < p.message_at < events@.len(),
            None => post_for(events@, ixs@, seq) is None,
        },
{
    let mut i = ps.len();
    assert(ixs@.take(i as int) =~= ixs@);
    while i > 0
        invariant
            i <= ps@.len(),
            posts_are(ps@, events@, ixs@),
            post_for(events@, ixs@, seq) == post_for(events@, ixs@.take(i as int), seq),
        decreases i,
    {
        i = i - 1;
        proof {
            assert(ixs@.take(i + 1).drop_last() =~= ixs@.take(i as int));
            assert(ixs@.take(i + 1).last() == ixs@[i as int]);
        }
        assert(ps@[i as int].at as int == ixs@[i as int].0);
        if ps[i].message_seq == seq {
            return Some(&ps[i]);
        }
    }
    None
}

/// `TRAN-073`'s antecedent: the protocol-version header disagrees with `_meta`.
pub open spec fn version_fault(events: Seq<TraceEvent>, px: (int, int)) -> bool {
    header_value(post_headers(events, px), "mcp-protocol-version"@) matches Some(sent)
        && body_version(post_payload(events, px)) matches Some(b) && sent != b
}

/// The headers a trace's designations construct.
pub open spec fn recognized_headers(list: Seq<(Seq<char>, Seq<DesignationView>)>) -> Seq<Seq<char>>
    decreases list.len(),
{
    if list.len() == 0 {
        Seq::empty()
    } else {
        recognized_headers(list.drop_last()) + list.last().1.map_values(|d: DesignationView| header_of(d.name))
    }
}

/// `TRAN-096`'s antecedent: a recognized custom header carries, unencoded,
/// characters no header value may hold plainly.
pub open spec fn invalid_param_fault(events: Seq<TraceEvent>, px: (int, int)) -> bool {
    let hs = post_headers(events, px);
    exists|k: int| 0 <= k < hs.len() && effective(hs, k)
        && recognized_headers(trace_designations(events)).contains(#[trigger] ascii_lower(hs[k].0@))
        && sentinel(hs[k].1@) is None && !safe_header(hs[k].1@)
}

/// Which header fault a rejection check judges.
#[derive(Clone, Copy, Debug, PartialEq, Eq, Structural)]
pub enum HeaderFault {
    /// `TRAN-073`: a protocol-version header/body mismatch.
    VersionMismatch,
    /// `TRAN-096`: a recognized `Mcp-Param-*` with invalid characters.
    InvalidParam,
}

/// Whether the POST at `px` carries `fault`.
pub open spec fn has_fault(fault: HeaderFault, events: Seq<TraceEvent>, px: (int, int)) -> bool {
    match fault {
        HeaderFault::VersionMismatch => version_fault(events, px),
        HeaderFault::InvalidParam => invalid_param_fault(events, px),
    }
}

/// An exchange whose POST carried `fault` yet drew something other than a
/// `HeaderMismatch` (`-32020`) rejection.
pub open spec fn unrejected_fault_site(fault: HeaderFault, events: Seq<TraceEvent>, x: (int, int)) -> Seq<Option<u64>> {
    match post_for(events, trace_posts(events), events[x.0].seq) {
        Some(px) => if has_fault(fault, events, px) && answer_code(events[x.1]) != Some(-32020int) {
            seq![Some(events[x.1].seq)]
        } else {
            Seq::empty()
        },
        None => Seq::empty(),
    }
}

fn recognized(designated: &Vec<(String, Vec<Designation>)>) -> (r: Vec<String>)
    requires
        tool_headers_agree(designated@),
    ensures
        texts(r@) == recognized_headers(tool_views(designated@)),
{
    let ghost views = tool_views(designated@);
    let mut out: Vec<String> = Vec::new();
    let mut i: usize = 0;
    while i < designated.len()
        invariant
            i <= designated@.len(),
            views == tool_views(designated@),
            tool_headers_agree(designated@),
            texts(out@) == recognized_headers(views.take(i as int)),
        decreases designated@.len() - i,
    {
        proof { assert(views.take(i + 1).drop_last() =~= views.take(i as int)); }
        let ds = &designated[i].1;
        assert(crate::checks::designation::headers_agree(ds@));
        let ghost base = texts(out@);
        let ghost dv = views[i as int].1;
        let mut q: usize = 0;
        while q < ds.len()
            invariant
                q <= ds@.len(),
                dv == crate::checks::designation::designation_views(ds@),
                crate::checks::designation::headers_agree(ds@),
                texts(out@) == base + dv.take(q as int).map_values(|d: DesignationView| header_of(d.name)),
            decreases ds@.len() - q,
        {
            assert(ds@[q as int].header_agrees());
            let ghost prev = out@;
            let h = owned(ds[q].header.as_str());
            out.push(h);
            assert(texts(out@) =~= texts(prev).push(header_of(dv[q as int].name)));
            assert(dv.take(q + 1).map_values(|d: DesignationView| header_of(d.name))
                =~= dv.take(q as int).map_values(|d: DesignationView| header_of(d.name)).push(header_of(dv[q as int].name)));
            q = q + 1;
        }
        assert(dv.take(dv.len() as int) =~= dv);
        i = i + 1;
    }
    assert(views.take(views.len() as int) =~= views);
    out
}

/// The reason a POST carries `fault`, naming what it carried.
fn fault_reason(post: &Post<'_>, fault: HeaderFault, known: &Vec<String>, events: Ghost<Seq<TraceEvent>>,
    px: Ghost<(int, int)>) -> (r: Option<String>)
    requires
        post.headers@ == post_headers(events@, px@),
        events@[px@.1].payload() == Some(*post.payload),
        texts(known@) == recognized_headers(trace_designations(events@)),
    ensures
        r is Some <==> has_fault(fault, events@, px@),
{
    match fault {
        HeaderFault::VersionMismatch => {
            let sent = get_header(post.headers, "mcp-protocol-version");
            let body = post.body_protocol_version();
            if let (Some(sent), Some(body)) = (sent, body) {
                if !text_eq(sent.as_str(), body) {
                    let mut d = owned("carried `MCP-Protocol-Version: ");
                    push_text(&mut d, sent.as_str());
                    push_text(&mut d, "` against a body `_meta` version of ");
                    let b = debug_text(body);
                    push_text(&mut d, b.as_str());
                    return Some(d);
                }
            }
            None
        },
        HeaderFault::InvalidParam => {
            let headers = post.headers;
            let ghost hs = headers@;
            let mut k: usize = 0;
            while k < headers.len()
                invariant
                    k <= hs.len(),
                    hs == headers@,
                    hs == post_headers(events@, px@),
                    fault == HeaderFault::InvalidParam,
                    texts(known@) == recognized_headers(trace_designations(events@)),
                    forall|j: int| 0 <= j < k ==> !(effective(hs, j)
                        && recognized_headers(trace_designations(events@)).contains(#[trigger] ascii_lower(hs[j].0@))
                        && sentinel(hs[j].1@) is None && !safe_header(hs[j].1@)),
                decreases hs.len() - k,
            {
                let name = lower_text(headers[k].0.as_str());
                let value = headers[k].1.as_str();
                if is_effective(headers, k) && contains_text(known, name.as_str())
                    && sentinel_payload(value).is_none() && !header_safe(value) {
                    let mut d = owned("carried `");
                    push_text(&mut d, name.as_str());
                    push_text(&mut d, ": ");
                    let v = debug_text(value);
                    push_text(&mut d, v.as_str());
                    push_text(&mut d, "`, whose characters are not valid unencoded");
                    assert(invalid_param_fault(events@, px@)) by {
                        let w = k as int;
                        assert(post_headers(events@, px@) == hs);
                        assert(0 <= w < hs.len() && effective(hs, w)
                            && recognized_headers(trace_designations(events@)).contains(ascii_lower(hs[w].0@))
                            && sentinel(hs[w].1@) is None && !safe_header(hs[w].1@));
                    }
                    return Some(d);
                }
                k = k + 1;
            }
            None
        },
    }
}

fn rejected_for(context: &TraceContext<'_>, sink: &mut FindingSink, fault: HeaderFault)
    ensures
        final(sink).check_id() == old(sink).check_id(),
        final(sink).subject_count() == old(sink).subject_count(),
        entry_seqs(final(sink).found()) == entry_seqs(old(sink).found()) + xsites(
            exchange_ixs(context.trace(), context.pairs(), None, context.trace().len() as nat),
            |x: (int, int)| unrejected_fault_site(fault, context.trace(), x)),
{
    let designated = designations_by_tool(context);
    let known = recognized(&designated);
    let ps = posts(context);
    let exchanges = context.exchanges();
    let ghost events = context.trace();
    let ghost pixs = trace_posts(events);
    let ghost ixs = exchange_ixs(context.trace(), context.pairs(), None, context.trace().len() as nat);
    let ghost f = |x: (int, int)| unrejected_fault_site(fault, events, x);
    let mut k: usize = 0;
    while k < exchanges.len()
        invariant
            k <= exchanges@.len(),
            exchanges_are(exchanges@, events, ixs),
            posts_are(ps@, events, pixs),
            pixs == trace_posts(events),
            texts(known@) == recognized_headers(trace_designations(events)),
            f == (|x: (int, int)| unrejected_fault_site(fault, events, x)),
            sink.check_id() == old(sink).check_id(),
            sink.subject_count() == old(sink).subject_count(),
            entry_seqs(sink.found()) == entry_seqs(old(sink).found()) + xsites(ixs.take(k as int), f),
        decreases exchanges@.len() - k,
    {
        proof { lemma_xsites_take(ixs, f, k as int); }
        let exchange = &exchanges[k];
        assert(*exchange.request == events[ixs[k as int].0]);
        assert(*exchange.response == events[ixs[k as int].1]);
        let ghost before = entry_seqs(sink.found());
        if let Some(post) = post_for_seq(&ps, exchange.request.seq, Ghost(events), Ghost(pixs)) {
            let ghost px = (post.at as int, post.message_at as int);
            if let Some(reason) = fault_reason(post, fault, &known, Ghost(events), Ghost(px)) {
                let code = answer_code_of(exchange.response);
                if code != Some(-32020i64) {
                    let mut d = owned("the POST at seq ");
                    let s = u64_text(post.seq);
                    push_text(&mut d, s.as_str());
                    push_text(&mut d, " ");
                    push_text(&mut d, reason.as_str());
                    push_text(&mut d, "; the server answered with ");
                    push_label(&mut d, code);
                    push_text(&mut d, " instead of rejecting it with -32020 (HeaderMismatch)");
                    sink.push(Some(exchange.response.seq), d);
                }
            }
        }
        assert(entry_seqs(sink.found()) =~= before + unrejected_fault_site(fault, events, ixs[k as int]));
        k = k + 1;
    }
    proof { lemma_xsites_all(ixs, f); }
}

/// `TRAN-073`: a protocol-version header/body mismatch is rejected with
/// `HeaderMismatch`.
pub fn version_mismatch_rejected(context: &TraceContext<'_>, sink: &mut FindingSink)
    ensures
        final(sink).check_id() == old(sink).check_id(),
        final(sink).subject_count() == old(sink).subject_count(),
        entry_seqs(final(sink).found()) == entry_seqs(old(sink).found()) + xsites(
            exchange_ixs(context.trace(), context.pairs(), None, context.trace().len() as nat),
            |x: (int, int)| unrejected_fault_site(HeaderFault::VersionMismatch, context.trace(), x)),
{
    rejected_for(context, sink, HeaderFault::VersionMismatch);
}

/// `TRAN-096`: a recognized `Mcp-Param-*` carrying invalid characters is
/// rejected with `HeaderMismatch`. Recognized: a header the trace shows a tool
/// declaring.
pub fn invalid_param_header_rejected(context: &TraceContext<'_>, sink: &mut FindingSink)
    ensures
        final(sink).check_id() == old(sink).check_id(),
        final(sink).subject_count() == old(sink).subject_count(),
        entry_seqs(final(sink).found()) == entry_seqs(old(sink).found()) + xsites(
            exchange_ixs(context.trace(), context.pairs(), None, context.trace().len() as nat),
            |x: (int, int)| unrejected_fault_site(HeaderFault::InvalidParam, context.trace(), x)),
{
    rejected_for(context, sink, HeaderFault::InvalidParam);
}

/// The status finding for an error with `code`: the recorded response status,
/// when there is one and it is not `expected`.
pub open spec fn status_code_site(events: Seq<TraceEvent>, e: TraceEvent, code: int, expected: u16) -> Seq<Option<u64>> {
    if answer_code(e) == Some(code) {
        match status_before(events, e.seq) {
            Some((s, status)) => if status != expected { seq![Some(s)] } else { Seq::empty() },
            None => Seq::empty(),
        }
    } else {
        Seq::empty()
    }
}

/// The status finding, as (seq, sentence), for an error with `code` answered
/// under an HTTP status other than `expected`; `name` names the error.
pub open spec fn status_code_entry(events: Seq<TraceEvent>, e: TraceEvent, code: int, expected: u16, name: Seq<char>)
    -> Seq<(Option<u64>, Seq<char>)>
{
    if answer_code(e) == Some(code) {
        match status_before(events, e.seq) {
            Some((s, status)) => if status != expected {
                seq![(Some(s), name + " ("@ + signed_decimal(code) + ") was returned with HTTP "@
                    + decimal(status as nat) + ", not "@ + decimal(expected as nat))]
            } else {
                Seq::empty()
            },
            None => Seq::empty(),
        }
    } else {
        Seq::empty()
    }
}

fn status_pass(context: &TraceContext<'_>, sink: &mut FindingSink, code: i64, expected: u16, name: &str)
    ensures
        final(sink).check_id() == old(sink).check_id(),
        final(sink).subject_count() == old(sink).subject_count(),
        entry_seqs(final(sink).found()) == entry_seqs(old(sink).found())
            + sites(context.trace(), |e: TraceEvent| status_code_site(context.trace(), e, code as int, expected)),
        entry_views(final(sink).found()) == entry_views(old(sink).found())
            + entries(context.trace(), |e: TraceEvent| status_code_entry(context.trace(), e, code as int, expected, name@)),
{
    let ghost events = context.trace();
    let ghost f = |e: TraceEvent| status_code_site(events, e, code as int, expected);
    let ghost h = |e: TraceEvent| status_code_entry(events, e, code as int, expected, name@);
    let n = context.len();
    let mut i: usize = 0;
    while i < n
        invariant
            n == events.len(),
            events == context.trace(),
            i <= n,
            f == (|e: TraceEvent| status_code_site(events, e, code as int, expected)),
            h == (|e: TraceEvent| status_code_entry(events, e, code as int, expected, name@)),
            sink.check_id() == old(sink).check_id(),
            sink.subject_count() == old(sink).subject_count(),
            entry_seqs(sink.found()) == entry_seqs(old(sink).found()) + sites(events.take(i as int), f),
            entry_views(sink.found()) == entry_views(old(sink).found()) + entries(events.take(i as int), h),
        decreases n - i,
    {
        proof { lemma_sites_take(events, f, i as int); lemma_entries_take(events, h, i as int); }
        let event = context.event(i);
        if answer_code_of(event) == Some(code) {
            if let Some((status_seq, status)) = http_status_for(context, event.seq) {
                if status != expected {
                    let mut d = owned(name);
                    push_text(&mut d, " (");
                    let c = i64_text(code);
                    push_text(&mut d, c.as_str());
                    push_text(&mut d, ") was returned with HTTP ");
                    let s = u64_text(status as u64);
                    push_text(&mut d, s.as_str());
                    push_text(&mut d, ", not ");
                    let e = u64_text(expected as u64);
                    push_text(&mut d, e.as_str());
                    sink.push(Some(status_seq), d);
                }
            }
        }
        i = i + 1;
    }
    proof { lemma_sites_all(events, f); lemma_entries_all(events, h); }
}

/// `TRAN-098`/`TRAN-102`: whatever draws `HeaderMismatch` draws HTTP `400`.
pub fn header_mismatch_status(context: &TraceContext<'_>, sink: &mut FindingSink)
    ensures
        final(sink).check_id() == old(sink).check_id(),
        final(sink).subject_count() == old(sink).subject_count(),
        entry_seqs(final(sink).found()) == entry_seqs(old(sink).found())
            + sites(context.trace(), |e: TraceEvent| status_code_site(context.trace(), e, -32020, 400)),
        entry_views(final(sink).found()) == entry_views(old(sink).found())
            + entries(context.trace(), |e: TraceEvent| status_code_entry(context.trace(), e, -32020, 400, "HeaderMismatch"@)),
{
    status_pass(context, sink, -32020, 400, "HeaderMismatch");
}

/// `TRAN-075`: an unimplemented method draws `404 Not Found` with `-32601`.
/// A trace with no POST carries no status to judge.
pub open spec fn unknown_method_sites(events: Seq<TraceEvent>) -> Seq<Option<u64>> {
    if trace_posts(events).len() == 0 {
        Seq::empty()
    } else {
        sites(events, |e: TraceEvent| status_code_site(events, e, -32601, 404))
    }
}

/// The findings, as (seq, sentence), of `unknown_method_sites`.
pub open spec fn unknown_method_entries(events: Seq<TraceEvent>) -> Seq<(Option<u64>, Seq<char>)> {
    if trace_posts(events).len() == 0 {
        Seq::empty()
    } else {
        entries(events, |e: TraceEvent| status_code_entry(events, e, -32601, 404, "`Method not found`"@))
    }
}

/// `TRAN-075`: an unimplemented method draws `404 Not Found` with `-32601`.
pub fn unknown_method_404(context: &TraceContext<'_>, sink: &mut FindingSink)
    ensures
        final(sink).check_id() == old(sink).check_id(),
        final(sink).subject_count() == old(sink).subject_count(),
        entry_seqs(final(sink).found()) == entry_seqs(old(sink).found()) + unknown_method_sites(context.trace()),
        entry_views(final(sink).found()) == entry_views(old(sink).found()) + unknown_method_entries(context.trace()),
{
    let ps = posts(context);
    if ps.len() == 0 {
        assert(entry_seqs(old(sink).found()) + unknown_method_sites(context.trace()) =~= entry_seqs(old(sink).found()));
        assert(entry_views(old(sink).found()) + unknown_method_entries(context.trace()) =~= entry_views(old(sink).found()));
        return;
    }
    status_pass(context, sink, -32601, 404, "`Method not found`");
}

/// A mirror whose header disagrees with the body field it mirrors.
pub open spec fn mismatch_hit(headers: Seq<(String, String)>, seq: u64, m: MirrorView) -> Seq<Option<u64>> {
    if header_value(headers, m.header) matches Some(sent) && compared(sent, m.value) == Match::Mismatch {
        seq![Some(seq)]
    } else {
        Seq::empty()
    }
}

/// A POST whose mirrored header disagrees with its body, answered with a result.
pub open spec fn unvalidated_site(events: Seq<TraceEvent>, x: (int, int)) -> Seq<Option<u64>> {
    match post_for(events, trace_posts(events), events[x.0].seq) {
        Some(px) => if x_result(events, x.1) is Some {
            msites(mirrors_of(post_payload(events, px), trace_designations(events)),
                |m: MirrorView| mismatch_hit(post_headers(events, px), events[x.1].seq, m))
        } else {
            Seq::empty()
        },
        None => Seq::empty(),
    }
}

/// `TRAN-097`/`TRAN-100`: a header/body mismatch is validated and rejected: a
/// POST whose mirrored header disagrees with the body field it mirrors (after
/// decoding the sentinel) must not have drawn a result.
pub fn header_body_match_validated(context: &TraceContext<'_>, sink: &mut FindingSink)
    ensures
        final(sink).check_id() == old(sink).check_id(),
        final(sink).subject_count() == old(sink).subject_count(),
        entry_seqs(final(sink).found()) == entry_seqs(old(sink).found()) + xsites(
            exchange_ixs(context.trace(), context.pairs(), None, context.trace().len() as nat),
            |x: (int, int)| unvalidated_site(context.trace(), x)),
{
    let designated = designations_by_tool(context);
    let ps = posts(context);
    let exchanges = context.exchanges();
    let ghost events = context.trace();
    let ghost pixs = trace_posts(events);
    let ghost ixs = exchange_ixs(context.trace(), context.pairs(), None, context.trace().len() as nat);
    let ghost f = |x: (int, int)| unvalidated_site(events, x);
    let mut k: usize = 0;
    while k < exchanges.len()
        invariant
            k <= exchanges@.len(),
            exchanges_are(exchanges@, events, ixs),
            posts_are(ps@, events, pixs),
            pixs == trace_posts(events),
            tool_views(designated@) == trace_designations(events),
            tool_headers_agree(designated@),
            f == (|x: (int, int)| unvalidated_site(events, x)),
            sink.check_id() == old(sink).check_id(),
            sink.subject_count() == old(sink).subject_count(),
            entry_seqs(sink.found()) == entry_seqs(old(sink).found()) + xsites(ixs.take(k as int), f),
        decreases exchanges@.len() - k,
    {
        proof { lemma_xsites_take(ixs, f, k as int); }
        let exchange = &exchanges[k];
        assert(*exchange.request == events[ixs[k as int].0]);
        let ghost before = entry_seqs(sink.found());
        if let Some(post) = post_for_seq(&ps, exchange.request.seq, Ghost(events), Ghost(pixs)) {
            if exchange.result.is_some() {
                let ms = mirrors(post, &designated);
                let ghost mv = mirror_views(ms@);
                let ghost g = |m: MirrorView| mismatch_hit(post.headers@, exchange.response.seq, m);
                let mut q: usize = 0;
                while q < ms.len()
                    invariant
                        q <= ms@.len(),
                        mv == mirror_views(ms@),
                        g == (|m: MirrorView| mismatch_hit(post.headers@, exchange.response.seq, m)),
                        sink.check_id() == old(sink).check_id(),
                        sink.subject_count() == old(sink).subject_count(),
                        entry_seqs(sink.found()) == before + msites(mv.take(q as int), g),
                    decreases ms@.len() - q,
                {
                    proof { assert(mv.take(q + 1).drop_last() =~= mv.take(q as int)); }
                    let mirror = &ms[q];
                    if let Some(sent) = get_header(post.headers, mirror.header.as_str()) {
                        if compare(sent.as_str(), mirror.value.as_str()) == Match::Mismatch {
                            let mut d = owned("the POST at seq ");
                            let s = u64_text(post.seq);
                            push_text(&mut d, s.as_str());
                            push_text(&mut d, " carried `");
                            push_text(&mut d, mirror.label.as_str());
                            push_text(&mut d, ": ");
                            push_text(&mut d, sent.as_str());
                            push_text(&mut d, "` against `");
                            push_text(&mut d, mirror.source.as_str());
                            push_text(&mut d, "` = ");
                            let v = debug_text(mirror.value.as_str());
                            push_text(&mut d, v.as_str());
                            push_text(&mut d, "; the server answered it with a result instead of rejecting the mismatch");
                            sink.push(Some(exchange.response.seq), d);
                        }
                    }
                    q = q + 1;
                }
                assert(mv.take(mv.len() as int) =~= mv);
            }
        }
        k = k + 1;
    }
    proof { lemma_xsites_all(ixs, f); }
}

/// Whether an `UnsupportedProtocolVersionError` lists the supported versions:
/// a non-empty array of strings at `data.supported`.
pub open spec fn lists_versions(e: TraceEvent) -> bool {
    match e.payload().unwrap().at("error"@) {
        Some(err) => match err.at("data"@) {
            Some(data) => match data.at("supported"@) {
                Some(Json::Array(items)) => items@.len() > 0
                    && forall|i: int| 0 <= i < items@.len() ==> (#[trigger] items@[i]) is Str,
                _ => false,
            },
            None => false,
        },
        None => false,
    }
}

/// The shape findings of a `-32022`: no version list, and a non-`400` status.
pub open spec fn shape_site(events: Seq<TraceEvent>, e: TraceEvent) -> Seq<Option<u64>> {
    if answer_code(e) == Some(-32022int) {
        (if !lists_versions(e) { seq![Some(e.seq)] } else { Seq::empty() })
            + non_400_site(events, e.seq)
    } else {
        Seq::empty()
    }
}

/// The string values of a list, in order.
pub open spec fn strings_of(items: Seq<Json>) -> Seq<Seq<char>>
    decreases items.len(),
{
    if items.len() == 0 {
        Seq::empty()
    } else {
        match items.last().text() {
            Some(t) => strings_of(items.drop_last()).push(t),
            None => strings_of(items.drop_last()),
        }
    }
}

/// The versions a `server/discover` result declares, when it lists some.
pub open spec fn declared_of(result: Option<Json>) -> Option<Seq<Seq<char>>> {
    match result {
        Some(r) => match r.at("supportedVersions"@) {
            Some(Json::Array(items)) => if strings_of(items@).len() > 0 { Some(strings_of(items@)) } else { None },
            _ => None,
        },
        None => None,
    }
}

/// The versions the first `server/discover` result that lists some declares.
pub open spec fn first_declared(events: Seq<TraceEvent>, ixs: Seq<(int, int)>) -> Option<Seq<Seq<char>>>
    decreases ixs.len(),
{
    if ixs.len() == 0 {
        None
    } else {
        match first_declared(events, ixs.drop_last()) {
            Some(v) => Some(v),
            None => declared_of(x_result(events, ixs.last().1)),
        }
    }
}

/// A request for a version outside the server's own declared list that drew
/// something other than `-32022`.
pub open spec fn unsupported_answer_site(events: Seq<TraceEvent>, declared: Seq<Seq<char>>, x: (int, int))
    -> Seq<Option<u64>> {
    match post_for(events, trace_posts(events), events[x.0].seq) {
        Some(px) => match body_version(post_payload(events, px)) {
            Some(requested) => if !declared.contains(requested) && answer_code(events[x.1]) != Some(-32022int) {
                seq![Some(events[x.1].seq)]
            } else {
                Seq::empty()
            },
            None => Seq::empty(),
        },
        None => Seq::empty(),
    }
}

/// The `TRAN-074` findings: the shape of every `-32022`, then each request the
/// server's own declared versions exclude that drew another answer.
pub open spec fn unsupported_sites(events: Seq<TraceEvent>, pairs: Seq<Option<usize>>) -> Seq<Option<u64>> {
    sites(events, |e: TraceEvent| shape_site(events, e)) + match first_declared(events, discover_ixs(events, pairs)) {
        Some(declared) => xsites(exchange_ixs(events, pairs, None, events.len() as nat),
            |x: (int, int)| unsupported_answer_site(events, declared, x)),
        None => Seq::empty(),
    }
}

fn shape_pass(context: &TraceContext<'_>, sink: &mut FindingSink)
    ensures
        final(sink).check_id() == old(sink).check_id(),
        final(sink).subject_count() == old(sink).subject_count(),
        entry_seqs(final(sink).found()) == entry_seqs(old(sink).found())
            + sites(context.trace(), |e: TraceEvent| shape_site(context.trace(), e)),
{
    let ghost events = context.trace();
    let ghost f = |e: TraceEvent| shape_site(events, e);
    let n = context.len();
    let mut i: usize = 0;
    while i < n
        invariant
            n == events.len(),
            events == context.trace(),
            i <= n,
            f == (|e: TraceEvent| shape_site(events, e)),
            sink.check_id() == old(sink).check_id(),
            sink.subject_count() == old(sink).subject_count(),
            entry_seqs(sink.found()) == entry_seqs(old(sink).found()) + sites(events.take(i as int), f),
        decreases n - i,
    {
        proof { lemma_sites_take(events, f, i as int); }
        let event = context.event(i);
        let ghost before = entry_seqs(sink.found());
        if answer_code_of(event) == Some(-32022i64) {
            let error = event.message_payload().unwrap().get("error").unwrap();
            let items = match error.get("data") {
                Some(data) => match data.get("supported") {
                    Some(Json::Array(items)) => Some(items),
                    _ => None,
                },
                None => None,
            };
            let mut lists = false;
            if let Some(items) = items {
                if items.len() > 0 {
                    let mut all = true;
                    let mut q: usize = 0;
                    while q < items.len()
                        invariant
                            q <= items@.len(),
                            all == forall|j: int| 0 <= j < q ==> (#[trigger] items@[j]) is Str,
                        decreases items@.len() - q,
                    {
                        if !items[q].is_string() {
                            all = false;
                        }
                        q = q + 1;
                    }
                    lists = all;
                }
            }
            assert(lists == lists_versions(*event));
            if !lists {
                sink.push(Some(event.seq), owned(
                    "error -32022 does not carry `data.supported` listing the protocol versions the server does implement"));
            }
            if let Some((status_seq, status)) = http_status_for(context, event.seq) {
                if status != 400 {
                    let mut d = owned("UnsupportedProtocolVersionError (-32022) was returned with HTTP ");
                    let s = u64_text(status as u64);
                    push_text(&mut d, s.as_str());
                    push_text(&mut d, ", not 400");
                    sink.push(Some(status_seq), d);
                }
            }
            assert(entry_seqs(sink.found()) =~= before + shape_site(events, *event));
        }
        i = i + 1;
    }
    proof { lemma_sites_all(events, f); }
}

fn string_items(items: &Vec<Json>) -> (r: Vec<String>)
    ensures
        texts(r@) == strings_of(items@),
{
    let mut out: Vec<String> = Vec::new();
    let mut q: usize = 0;
    while q < items.len()
        invariant
            q <= items@.len(),
            texts(out@) == strings_of(items@.take(q as int)),
        decreases items@.len() - q,
    {
        proof { assert(items@.take(q + 1).drop_last() =~= items@.take(q as int)); }
        if let Some(t) = items[q].as_str() {
            let ghost prev = out@;
            let o = owned(t);
            out.push(o);
            assert(texts(out@) =~= texts(prev).push(t@));
        }
        q = q + 1;
    }
    assert(items@.take(items@.len() as int) =~= items@);
    out
}

fn declared_versions(context: &TraceContext<'_>) -> (r: Option<Vec<String>>)
    ensures
        match r {
            Some(v) => first_declared(context.trace(), discover_ixs(context.trace(), context.pairs())) == Some(texts(v@)),
            None => first_declared(context.trace(), discover_ixs(context.trace(), context.pairs())) is None,
        },
{
    let exchanges = context.exchanges_for("server/discover");
    let ghost events = context.trace();
    let ghost ixs = discover_ixs(context.trace(), context.pairs());
    let mut k: usize = 0;
    while k < exchanges.len()
        invariant
            k <= exchanges@.len(),
            exchanges_are(exchanges@, events, ixs),
            ixs == discover_ixs(context.trace(), context.pairs()),
            events == context.trace(),
            first_declared(events, ixs.take(k as int)) is None,
        decreases exchanges@.len() - k,
    {
        proof { assert(ixs.take(k + 1).drop_last() =~= ixs.take(k as int)); }
        let exchange = &exchanges[k];
        assert(*exchange.request == events[ixs[k as int].0]);
        let items = match exchange.result {
            Some(r) => match r.get("supportedVersions") {
                Some(Json::Array(items)) => Some(items),
                _ => None,
            },
            None => None,
        };
        if let Some(items) = items {
            let versions = string_items(items);
            if versions.len() > 0 {
                proof {
                    assert(first_declared(events, ixs.take(k + 1)) == Some(texts(versions@)));
                    lemma_first_declared_extends(events, ixs, k as int + 1);
                }
                return Some(versions);
            }
        }
        k = k + 1;
    }
    proof { assert(ixs.take(ixs.len() as int) =~= ixs); }
    None
}

proof fn lemma_first_declared_extends(events: Seq<TraceEvent>, ixs: Seq<(int, int)>, k: int)
    requires
        0 <= k <= ixs.len(),
        first_declared(events, ixs.take(k)) is Some,
    ensures
        first_declared(events, ixs) == first_declared(events, ixs.take(k)),
    decreases ixs.len() - k,
{
    if k < ixs.len() {
        assert(ixs.take(k + 1).drop_last() =~= ixs.take(k));
        lemma_first_declared_extends(events, ixs, k + 1);
    } else {
        assert(ixs.take(k) =~= ixs);
    }
}

/// `TRAN-074`: an unsupported protocol version draws
/// `UnsupportedProtocolVersionError`, listing the versions the server supports,
/// under HTTP `400`; with the server's own list on the wire (from a
/// `server/discover` result), a request for a version outside it must draw
/// `-32022`.
pub fn unsupported_version_error(context: &TraceContext<'_>, sink: &mut FindingSink)
    ensures
        final(sink).check_id() == old(sink).check_id(),
        final(sink).subject_count() == old(sink).subject_count(),
        entry_seqs(final(sink).found()) == entry_seqs(old(sink).found())
            + unsupported_sites(context.trace(), context.pairs()),
{
    shape_pass(context, sink);
    let ghost mid = entry_seqs(sink.found());
    let supported = match declared_versions(context) {
        Some(v) => v,
        None => return,
    };
    let ps = posts(context);
    let exchanges = context.exchanges();
    let ghost events = context.trace();
    let ghost declared = texts(supported@);
    let ghost pixs = trace_posts(events);
    let ghost ixs = exchange_ixs(context.trace(), context.pairs(), None, context.trace().len() as nat);
    let ghost f = |x: (int, int)| unsupported_answer_site(events, declared, x);
    let mut k: usize = 0;
    while k < exchanges.len()
        invariant
            k <= exchanges@.len(),
            exchanges_are(exchanges@, events, ixs),
            posts_are(ps@, events, pixs),
            pixs == trace_posts(events),
            declared == texts(supported@),
            f == (|x: (int, int)| unsupported_answer_site(events, declared, x)),
            sink.check_id() == old(sink).check_id(),
            sink.subject_count() == old(sink).subject_count(),
            entry_seqs(sink.found()) == mid + xsites(ixs.take(k as int), f),
        decreases exchanges@.len() - k,
    {
        proof { lemma_xsites_take(ixs, f, k as int); }
        let exchange = &exchanges[k];
        assert(*exchange.request == events[ixs[k as int].0]);
        assert(*exchange.response == events[ixs[k as int].1]);
        if let Some(post) = post_for_seq(&ps, exchange.request.seq, Ghost(events), Ghost(pixs)) {
            if let Some(requested) = post.body_protocol_version() {
                if !contains_text(&supported, requested) {
                    let code = answer_code_of(exchange.response);
                    if code != Some(-32022i64) {
                        let mut d = owned("the POST at seq ");
                        let s = u64_text(post.seq);
                        push_text(&mut d, s.as_str());
                        push_text(&mut d, " requested protocol version ");
                        let r = debug_text(requested);
                        push_text(&mut d, r.as_str());
                        push_text(&mut d, ", which the server's own `supportedVersions` omits; it answered with ");
                        push_label(&mut d, code);
                        push_text(&mut d, " instead of -32022");
                        sink.push(Some(exchange.response.seq), d);
                    }
                }
            }
        }
        k = k + 1;
    }
    proof { lemma_xsites_all(ixs, f); }
}

} // verus!
