//! `BASE-040`: the OpenTelemetry trace-context keys, and their formats.
//!
//! `traceparent`, `tracestate` and `baggage` are the single exception to the
//! `_meta` prefix rule, so the grammar they follow is W3C's, not MCP's.

use vstd::prelude::*;
use crate::checks::sites::{entries, lemma_entries_take, lemma_entries_all};
use crate::checks::entry_views;
use crate::checks::sites::{tally, lemma_tally_take, lemma_tally_all};
use crate::checks::{FindingSink, entry_seqs};
use crate::checks::sites::{sites, lemma_sites_take, lemma_sites_all};
use crate::checks::meta_key::{split_at_char, split_chars, char_views};
use crate::context::TraceContext;
use crate::json::Json;
use crate::text::{chars_of, owned, push_text, debug_text, debug_quoted, text_of_chars};
use crate::trace::TraceEvent;

verus! {

/// A lowercase hexadecimal digit.
pub open spec fn is_lower_hex(c: char) -> bool {
    ('0' <= c && c <= '9') || ('a' <= c && c <= 'f')
}

/// A field of exactly `n` lowercase hexadecimal digits.
pub open spec fn hex_field(s: Seq<char>, n: nat) -> bool {
    s.len() == n && forall|i: int| 0 <= i < s.len() ==> #[trigger] is_lower_hex(s[i])
}

/// A field of nothing but `0`.
pub open spec fn all_zero(s: Seq<char>) -> bool {
    forall|i: int| 0 <= i < s.len() ==> #[trigger] s[i] == '0'
}

/// What is wrong with a `traceparent` value, first fault first.
#[derive(Clone, Copy, Debug, PartialEq, Eq, Structural)]
pub enum TraceparentFault {
    NotString,
    FieldCount,
    Version,
    TraceId,
    ZeroTraceId,
    ParentId,
    ZeroParentId,
    Flags,
}

/// The W3C Trace Context `traceparent` grammar, version `00`: four `-`-separated
/// fields of 2, 32, 16 and 2 lowercase hex digits, with neither id all zero.
pub open spec fn traceparent_fault(v: Json) -> Option<TraceparentFault> {
    match v {
        Json::Str(s) => {
            let parts = split_at_char(s@, '-');
            if parts.len() != 4 {
                Some(TraceparentFault::FieldCount)
            } else if !hex_field(parts[0], 2) {
                Some(TraceparentFault::Version)
            } else if !hex_field(parts[1], 32) {
                Some(TraceparentFault::TraceId)
            } else if all_zero(parts[1]) {
                Some(TraceparentFault::ZeroTraceId)
            } else if !hex_field(parts[2], 16) {
                Some(TraceparentFault::ParentId)
            } else if all_zero(parts[2]) {
                Some(TraceparentFault::ZeroParentId)
            } else if !hex_field(parts[3], 2) {
                Some(TraceparentFault::Flags)
            } else {
                None
            }
        },
        _ => Some(TraceparentFault::NotString),
    }
}

/// The reason a `traceparent` value is refused, naming the offending field.
pub open spec fn traceparent_reason(v: Json) -> Seq<char> {
    let s = v.text().unwrap_or(Seq::empty());
    let parts = split_at_char(s, '-');
    match traceparent_fault(v) {
        Some(TraceparentFault::NotString) => "is not a string"@,
        Some(TraceparentFault::FieldCount) => "is "@ + debug_quoted(s)
            + "; W3C Trace Context requires four `-`-separated fields"@,
        Some(TraceparentFault::Version) => "has version "@ + debug_quoted(parts[0])
            + "; expected two lowercase hex digits"@,
        Some(TraceparentFault::TraceId) => "has trace-id "@ + debug_quoted(parts[1])
            + "; expected 32 lowercase hex digits"@,
        Some(TraceparentFault::ZeroTraceId) => "has an all-zero trace-id, which W3C Trace Context forbids"@,
        Some(TraceparentFault::ParentId) => "has parent-id "@ + debug_quoted(parts[2])
            + "; expected 16 lowercase hex digits"@,
        Some(TraceparentFault::ZeroParentId) => "has an all-zero parent-id, which W3C Trace Context forbids"@,
        Some(TraceparentFault::Flags) => "has flags "@ + debug_quoted(parts[3])
            + "; expected two lowercase hex digits"@,
        None => Seq::empty(),
    }
}

fn is_hex_field(s: &Vec<char>, n: usize) -> (r: bool)
    ensures
        r == hex_field(s@, n as nat),
{
    if s.len() != n {
        return false;
    }
    let mut i: usize = 0;
    while i < s.len()
        invariant
            i <= s@.len(),
            forall|j: int| 0 <= j < i ==> #[trigger] is_lower_hex(s@[j]),
        decreases s@.len() - i,
    {
        let c = s[i];
        if !(('0' <= c && c <= '9') || ('a' <= c && c <= 'f')) {
            assert(!is_lower_hex(s@[i as int]));
            return false;
        }
        i = i + 1;
    }
    true
}

fn is_all_zero(s: &Vec<char>) -> (r: bool)
    ensures
        r == all_zero(s@),
{
    let mut i: usize = 0;
    while i < s.len()
        invariant
            i <= s@.len(),
            forall|j: int| 0 <= j < i ==> #[trigger] s@[j] == '0',
        decreases s@.len() - i,
    {
        if s[i] != '0' {
            return false;
        }
        i = i + 1;
    }
    true
}

fn quoted_field(prefix: &str, field: &Vec<char>, suffix: &str) -> (r: String)
    ensures
        r@ == prefix@ + debug_quoted(field@) + suffix@,
{
    let text = text_of_chars(field);
    let shown = debug_text(text.as_str());
    let mut out = owned(prefix);
    push_text(&mut out, shown.as_str());
    push_text(&mut out, suffix);
    out
}

/// The W3C Trace Context `traceparent` grammar, version `00`.
pub fn validate_traceparent(value: &Json) -> (r: Result<(), String>)
    ensures
        r is Ok <==> traceparent_fault(*value) is None,
        r matches Err(m) ==> m@ == traceparent_reason(*value),
{
    let text = match value.as_str() {
        Some(t) => t,
        None => return Err(owned("is not a string")),
    };
    let cs = chars_of(text);
    let parts = split_chars(&cs, '-');
    let ghost views = char_views(parts@);
    assert(views == split_at_char(text@, '-'));
    if parts.len() != 4 {
        let shown = debug_text(text);
        let mut out = owned("is ");
        push_text(&mut out, shown.as_str());
        push_text(&mut out, "; W3C Trace Context requires four `-`-separated fields");
        return Err(out);
    }
    assert(views[0] == parts@[0]@ && views[1] == parts@[1]@ && views[2] == parts@[2]@ && views[3] == parts@[3]@);
    if !is_hex_field(&parts[0], 2) {
        return Err(quoted_field("has version ", &parts[0], "; expected two lowercase hex digits"));
    }
    if !is_hex_field(&parts[1], 32) {
        return Err(quoted_field("has trace-id ", &parts[1], "; expected 32 lowercase hex digits"));
    }
    if is_all_zero(&parts[1]) {
        return Err(owned("has an all-zero trace-id, which W3C Trace Context forbids"));
    }
    if !is_hex_field(&parts[2], 16) {
        return Err(quoted_field("has parent-id ", &parts[2], "; expected 16 lowercase hex digits"));
    }
    if is_all_zero(&parts[2]) {
        return Err(owned("has an all-zero parent-id, which W3C Trace Context forbids"));
    }
    if !is_hex_field(&parts[3], 2) {
        return Err(quoted_field("has flags ", &parts[3], "; expected two lowercase hex digits"));
    }
    Ok(())
}

/// The findings one envelope's `_meta` yields: a malformed `traceparent`, and
/// a `tracestate` or `baggage` that is not a string.
pub open spec fn envelope_trace_sites(p: Json, envelope: Seq<char>, seq: u64) -> Seq<Option<u64>> {
    match p.at(envelope) {
        Some(member) => match member.at("_meta"@) {
            Some(meta) => if meta is Object {
                (if meta.at("traceparent"@) matches Some(v) && traceparent_fault(v) is Some {
                    seq![Some(seq)]
                } else {
                    Seq::empty()
                }) + (if meta.at("tracestate"@) matches Some(v) && !(v is Str) {
                    seq![Some(seq)]
                } else {
                    Seq::empty()
                }) + (if meta.at("baggage"@) matches Some(v) && !(v is Str) {
                    seq![Some(seq)]
                } else {
                    Seq::empty()
                })
            } else {
                Seq::empty()
            },
            None => Seq::empty(),
        },
        None => Seq::empty(),
    }
}

/// The trace-context findings of one event: request envelope, then result
/// envelope.
pub open spec fn trace_context_site(e: TraceEvent) -> Seq<Option<u64>> {
    match e.payload() {
        Some(p) => envelope_trace_sites(p, "params"@, e.seq) + envelope_trace_sites(p, "result"@, e.seq),
        None => Seq::empty(),
    }
}

/// The trace-context members an envelope's `_meta` carries.
pub open spec fn envelope_trace_subjects(p: Json, envelope: Seq<char>) -> nat {
    match p.at(envelope) {
        Some(member) => match member.at("_meta"@) {
            Some(meta) => if meta is Object {
                (if meta.at("traceparent"@) is Some { 1nat } else { 0nat })
                    + (if meta.at("tracestate"@) is Some { 1nat } else { 0nat })
                    + (if meta.at("baggage"@) is Some { 1nat } else { 0nat })
            } else {
                0
            },
            None => 0,
        },
        None => 0,
    }
}

/// The trace-context members a message carries in `params` and `result`.
pub open spec fn trace_context_subject(e: TraceEvent) -> nat {
    match e.payload() {
        Some(p) => envelope_trace_subjects(p, "params"@) + envelope_trace_subjects(p, "result"@),
        None => 0,
    }
}

/// The findings, as (seq, sentence), of the trace-context members of an
/// envelope's `_meta`.
pub open spec fn envelope_trace_entries(p: Json, envelope: Seq<char>, seq: u64) -> Seq<(Option<u64>, Seq<char>)> {
    match p.at(envelope) {
        Some(member) => match member.at("_meta"@) {
            Some(meta) => if meta is Object {
                (if meta.at("traceparent"@) matches Some(v) && traceparent_fault(v) is Some {
                    seq![(Some(seq), envelope + "._meta.traceparent "@ + traceparent_reason(meta.at("traceparent"@).unwrap()))]
                } else {
                    Seq::empty()
                }) + (if meta.at("tracestate"@) matches Some(v) && !(v is Str) {
                    seq![(Some(seq), envelope + "._meta.tracestate is not a string"@)]
                } else {
                    Seq::empty()
                }) + (if meta.at("baggage"@) matches Some(v) && !(v is Str) {
                    seq![(Some(seq), envelope + "._meta.baggage is not a string"@)]
                } else {
                    Seq::empty()
                })
            } else {
                Seq::empty()
            },
            None => Seq::empty(),
        },
        None => Seq::empty(),
    }
}

/// The trace-context findings, as (seq, sentence), of a message.
pub open spec fn trace_context_entry(e: TraceEvent) -> Seq<(Option<u64>, Seq<char>)> {
    match e.payload() {
        Some(p) => envelope_trace_entries(p, "params"@, e.seq) + envelope_trace_entries(p, "result"@, e.seq),
        None => Seq::empty(),
    }
}

fn check_envelope(payload: &Json, envelope: &str, seq: u64, sink: &mut FindingSink)
    ensures
        final(sink).check_id() == old(sink).check_id(),
        final(sink).subject_count() == crate::checks::after_counting(old(sink).subject_count(),
            envelope_trace_subjects(*payload, envelope@) as int),
        entry_seqs(final(sink).found()) == entry_seqs(old(sink).found()) + envelope_trace_sites(*payload, envelope@, seq),
        entry_views(final(sink).found()) == entry_views(old(sink).found()) + envelope_trace_entries(*payload, envelope@, seq),
{
    proof {
        reveal_strlit("traceparent");
        reveal_strlit("tracestate");
        reveal_strlit("baggage");
    }
    sink.examined_many(0);
    let meta = match payload.get(envelope) {
        Some(member) => match member.get("_meta") {
            Some(meta) => meta,
            None => return,
        },
        None => return,
    };
    if !meta.is_object() {
        return;
    }
    let ghost before = entry_seqs(sink.found());
    let ghost before_views = entry_views(sink.found());
    let ghost va: Seq<(Option<u64>, Seq<char>)> = if meta.at("traceparent"@) matches Some(v) && traceparent_fault(v) is Some {
        seq![(Some(seq), envelope@ + "._meta.traceparent "@ + traceparent_reason(meta.at("traceparent"@).unwrap()))] } else { Seq::empty() };
    let ghost vb: Seq<(Option<u64>, Seq<char>)> = if meta.at("tracestate"@) matches Some(v) && !(v is Str) {
        seq![(Some(seq), envelope@ + "._meta.tracestate is not a string"@)] } else { Seq::empty() };
    let ghost vc: Seq<(Option<u64>, Seq<char>)> = if meta.at("baggage"@) matches Some(v) && !(v is Str) {
        seq![(Some(seq), envelope@ + "._meta.baggage is not a string"@)] } else { Seq::empty() };
    let ghost a: Seq<Option<u64>> = if meta.at("traceparent"@) matches Some(v) && traceparent_fault(v) is Some {
        seq![Some(seq)] } else { Seq::empty() };
    let ghost b: Seq<Option<u64>> = if meta.at("tracestate"@) matches Some(v) && !(v is Str) {
        seq![Some(seq)] } else { Seq::empty() };
    let ghost c: Seq<Option<u64>> = if meta.at("baggage"@) matches Some(v) && !(v is Str) {
        seq![Some(seq)] } else { Seq::empty() };
    if let Some(value) = meta.get("traceparent") {
        sink.examined();
        if let Err(reason) = validate_traceparent(value) {
            let mut d = owned(envelope);
            push_text(&mut d, "._meta.traceparent ");
            push_text(&mut d, reason.as_str());
            sink.push(Some(seq), d);
        }
    }
    assert(entry_seqs(sink.found()) =~= before + a);
    assert(entry_views(sink.found()) =~= before_views + va);
    if let Some(value) = meta.get("tracestate") {
        sink.examined();
        if !value.is_string() {
            let mut d = owned(envelope);
            push_text(&mut d, "._meta.tracestate is not a string");
            sink.push(Some(seq), d);
        }
    }
    assert(entry_seqs(sink.found()) =~= before + a + b);
    assert(entry_views(sink.found()) =~= before_views + va + vb);
    if let Some(value) = meta.get("baggage") {
        sink.examined();
        if !value.is_string() {
            let mut d = owned(envelope);
            push_text(&mut d, "._meta.baggage is not a string");
            sink.push(Some(seq), d);
        }
    }
    assert(entry_seqs(sink.found()) =~= before + a + b + c);
    assert(entry_views(sink.found()) =~= before_views + va + vb + vc);
}

/// `BASE-040`: `traceparent` follows the W3C grammar; `tracestate` and
/// `baggage`, whose members are vendor-defined, are judged by their gross shape.
pub fn trace_context_format(context: &TraceContext<'_>, sink: &mut FindingSink)
    ensures
        final(sink).check_id() == old(sink).check_id(),
        entry_seqs(final(sink).found()) == entry_seqs(old(sink).found())
            + sites(context.trace(), |e: TraceEvent| trace_context_site(e)),
        final(sink).subject_count() == crate::checks::after_counting(old(sink).subject_count(),
            tally(context.trace(), |e: TraceEvent| trace_context_subject(e)) as int),
        entry_views(final(sink).found()) == entry_views(old(sink).found())
            + entries(context.trace(), |e: TraceEvent| trace_context_entry(e)),
{
    sink.examined_many(0);
    let ghost events = context.trace();
    let ghost f = |e: TraceEvent| trace_context_site(e);
    let ghost h = |e: TraceEvent| trace_context_entry(e);
    let ghost g = |e: TraceEvent| trace_context_subject(e);
    let n = context.len();
    let mut i: usize = 0;
    while i < n
        invariant
            n == events.len(),
            events == context.trace(),
            i <= n,
            f == (|e: TraceEvent| trace_context_site(e)),
            h == (|e: TraceEvent| trace_context_entry(e)),
            sink.check_id() == old(sink).check_id(),
            entry_seqs(sink.found()) == entry_seqs(old(sink).found()) + sites(events.take(i as int), f),
            entry_views(sink.found()) == entry_views(old(sink).found()) + entries(events.take(i as int), h),
            g == (|e: TraceEvent| trace_context_subject(e)),
            sink.subject_count() == crate::checks::after_counting(old(sink).subject_count(), tally(events.take(i as int), g) as int),
        decreases n - i,
    {
        proof { lemma_sites_take(events, f, i as int); lemma_entries_take(events, h, i as int); lemma_tally_take(events, g, i as int); }
        let event = context.event(i);
        if let Some(payload) = event.message_payload() {
            let ghost before = entry_seqs(sink.found());
            let ghost before_views = entry_views(sink.found());
            check_envelope(payload, "params", event.seq, sink);
            check_envelope(payload, "result", event.seq, sink);
            proof { reveal_strlit("params"); reveal_strlit("result"); }
            assert(entry_seqs(sink.found()) =~= before + trace_context_site(*event));
            assert(entry_views(sink.found()) =~= before_views + trace_context_entry(*event));
        }
        i = i + 1;
    }
    proof { lemma_sites_all(events, f); lemma_entries_all(events, h); lemma_tally_all(events, g); }
}

} // verus!
