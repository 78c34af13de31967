//! The per-event shape most checks share: walk the events in order, and report
//! at the ones that break the rule.

use vstd::prelude::*;
use crate::trace::TraceEvent;

verus! {

/// The finding seqs a per-event rule yields over `events`, in event order.
pub open spec fn sites(events: Seq<TraceEvent>, f: spec_fn(TraceEvent) -> Seq<Option<u64>>) -> Seq<Option<u64>>
    decreases events.len(),
{
    if events.len() == 0 {
        Seq::empty()
    } else {
        sites(events.drop_last(), f) + f(events.last())
    }
}

/// The findings, as (seq, sentence), a per-event rule yields over `events`.
pub open spec fn entries(events: Seq<TraceEvent>, h: spec_fn(TraceEvent) -> Seq<(Option<u64>, Seq<char>)>)
    -> Seq<(Option<u64>, Seq<char>)>
    decreases events.len(),
{
    if events.len() == 0 {
        Seq::empty()
    } else {
        entries(events.drop_last(), h) + h(events.last())
    }
}

/// Extending the walk by one event adds that event's findings.
pub proof fn lemma_entries_take(events: Seq<TraceEvent>, h: spec_fn(TraceEvent) -> Seq<(Option<u64>, Seq<char>)>, i: int)
    requires
        0 <= i < events.len(),
    ensures
        entries(events.take(i + 1), h) == entries(events.take(i), h) + h(events[i]),
{
    assert(events.take(i + 1).drop_last() =~= events.take(i));
}

/// A walk over all the events is the whole walk.
pub proof fn lemma_entries_all(events: Seq<TraceEvent>, h: spec_fn(TraceEvent) -> Seq<(Option<u64>, Seq<char>)>)
    ensures
        entries(events.take(events.len() as int), h) == entries(events, h),
{
    assert(events.take(events.len() as int) =~= events);
}

/// The findings, as (seq, sentence), a per-exchange rule yields over `ixs`.
pub open spec fn xentries(ixs: Seq<(int, int)>, h: spec_fn((int, int)) -> Seq<(Option<u64>, Seq<char>)>)
    -> Seq<(Option<u64>, Seq<char>)>
    decreases ixs.len(),
{
    if ixs.len() == 0 {
        Seq::empty()
    } else {
        xentries(ixs.drop_last(), h) + h(ixs.last())
    }
}

/// Extending the walk by one exchange adds that exchange's findings.
pub proof fn lemma_xentries_take(ixs: Seq<(int, int)>, h: spec_fn((int, int)) -> Seq<(Option<u64>, Seq<char>)>, k: int)
    requires
        0 <= k < ixs.len(),
    ensures
        xentries(ixs.take(k + 1), h) == xentries(ixs.take(k), h) + h(ixs[k]),
{
    assert(ixs.take(k + 1).drop_last() =~= ixs.take(k));
}

/// A walk over all the exchanges is the whole walk.
pub proof fn lemma_xentries_all(ixs: Seq<(int, int)>, h: spec_fn((int, int)) -> Seq<(Option<u64>, Seq<char>)>)
    ensures
        xentries(ixs.take(ixs.len() as int), h) == xentries(ixs, h),
{
    assert(ixs.take(ixs.len() as int) =~= ixs);
}

/// How many subjects a walk over `events` counts, `g` counting each event's.
pub open spec fn tally(events: Seq<TraceEvent>, g: spec_fn(TraceEvent) -> nat) -> nat
    decreases events.len(),
{
    if events.len() == 0 {
        0
    } else {
        tally(events.drop_last(), g) + g(events.last())
    }
}

/// How many subjects a walk over exchanges counts, `g` counting each one's.
pub open spec fn xtally(ixs: Seq<(int, int)>, g: spec_fn((int, int)) -> nat) -> nat
    decreases ixs.len(),
{
    if ixs.len() == 0 {
        0
    } else {
        xtally(ixs.drop_last(), g) + g(ixs.last())
    }
}

/// Extending the walk by one event adds that event's subjects.
pub proof fn lemma_tally_take(events: Seq<TraceEvent>, g: spec_fn(TraceEvent) -> nat, i: int)
    requires
        0 <= i < events.len(),
    ensures
        tally(events.take(i + 1), g) == tally(events.take(i), g) + g(events[i]),
{
    assert(events.take(i + 1).drop_last() =~= events.take(i));
}

/// Extending the walk by one exchange adds that exchange's subjects.
pub proof fn lemma_xtally_take(ixs: Seq<(int, int)>, g: spec_fn((int, int)) -> nat, k: int)
    requires
        0 <= k < ixs.len(),
    ensures
        xtally(ixs.take(k + 1), g) == xtally(ixs.take(k), g) + g(ixs[k]),
{
    assert(ixs.take(k + 1).drop_last() =~= ixs.take(k));
}

/// A walk over all the events is the whole tally.
pub proof fn lemma_tally_all(events: Seq<TraceEvent>, g: spec_fn(TraceEvent) -> nat)
    ensures
        tally(events.take(events.len() as int), g) == tally(events, g),
{
    assert(events.take(events.len() as int) =~= events);
}

/// A walk over all the exchanges is the whole tally.
pub proof fn lemma_xtally_all(ixs: Seq<(int, int)>, g: spec_fn((int, int)) -> nat)
    ensures
        xtally(ixs.take(ixs.len() as int), g) == xtally(ixs, g),
{
    assert(ixs.take(ixs.len() as int) =~= ixs);
}

/// A walk in which no event is a subject counts none.
pub proof fn lemma_tally_none(events: Seq<TraceEvent>, g: spec_fn(TraceEvent) -> nat)
    requires
        forall|i: int| 0 <= i < events.len() ==> g(#[trigger] events[i]) == 0,
    ensures
        tally(events, g) == 0,
    decreases events.len(),
{
    if events.len() > 0 {
        lemma_tally_none(events.drop_last(), g);
        assert(g(events[events.len() - 1]) == 0);
    }
}

/// A walk in which no event yields a finding, as (seq, sentence), finds
/// nothing.
pub proof fn lemma_entries_none(events: Seq<TraceEvent>, h: spec_fn(TraceEvent) -> Seq<(Option<u64>, Seq<char>)>)
    requires
        forall|i: int| 0 <= i < events.len() ==> h(#[trigger] events[i]).len() == 0,
    ensures
        entries(events, h) =~= Seq::<(Option<u64>, Seq<char>)>::empty(),
    decreases events.len(),
{
    if events.len() > 0 {
        lemma_entries_none(events.drop_last(), h);
        assert(h(events[events.len() - 1]).len() == 0);
    }
}

/// A walk in which no event yields a finding finds nothing.
pub proof fn lemma_sites_none(events: Seq<TraceEvent>, f: spec_fn(TraceEvent) -> Seq<Option<u64>>)
    requires
        forall|i: int| 0 <= i < events.len() ==> f(#[trigger] events[i]).len() == 0,
    ensures
        sites(events, f).len() == 0,
    decreases events.len(),
{
    if events.len() > 0 {
        lemma_sites_none(events.drop_last(), f);
        assert(f(events[events.len() - 1]).len() == 0);
    }
}

/// Extending the walk by one event adds that event's findings.
pub proof fn lemma_sites_take(events: Seq<TraceEvent>, f: spec_fn(TraceEvent) -> Seq<Option<u64>>, i: int)
    requires
        0 <= i < events.len(),
    ensures
        sites(events.take(i + 1), f) == sites(events.take(i), f) + f(events[i]),
{
    assert(events.take(i + 1).drop_last() =~= events.take(i));
}

/// The whole walk.
pub proof fn lemma_sites_all(events: Seq<TraceEvent>, f: spec_fn(TraceEvent) -> Seq<Option<u64>>)
    ensures
        sites(events.take(events.len() as int), f) == sites(events, f),
{
    assert(events.take(events.len() as int) =~= events);
}

} // verus!

verus! {

/// The finding seqs a per-exchange rule yields over the exchanges at `ixs`.
pub open spec fn xsites(ixs: Seq<(int, int)>, f: spec_fn((int, int)) -> Seq<Option<u64>>) -> Seq<Option<u64>>
    decreases ixs.len(),
{
    if ixs.len() == 0 {
        Seq::empty()
    } else {
        xsites(ixs.drop_last(), f) + f(ixs.last())
    }
}

/// Extending the walk by one exchange adds that exchange's findings.
pub proof fn lemma_xsites_take(ixs: Seq<(int, int)>, f: spec_fn((int, int)) -> Seq<Option<u64>>, k: int)
    requires
        0 <= k < ixs.len(),
    ensures
        xsites(ixs.take(k + 1), f) == xsites(ixs.take(k), f) + f(ixs[k]),
{
    assert(ixs.take(k + 1).drop_last() =~= ixs.take(k));
}

/// The whole walk.
pub proof fn lemma_xsites_all(ixs: Seq<(int, int)>, f: spec_fn((int, int)) -> Seq<Option<u64>>)
    ensures
        xsites(ixs.take(ixs.len() as int), f) == xsites(ixs, f),
{
    assert(ixs.take(ixs.len() as int) =~= ixs);
}

} // verus!

verus! {

/// The finding seqs a rule over event positions `0..n` yields, in order.
pub open spec fn isites(n: nat, f: spec_fn(int) -> Seq<Option<u64>>) -> Seq<Option<u64>>
    decreases n,
{
    if n == 0 {
        Seq::empty()
    } else {
        isites((n - 1) as nat, f) + f(n - 1)
    }
}

} // verus!

verus! {

/// The findings, as (seq, sentence), a rule over event positions `0..n`
/// yields, in order.
pub open spec fn ientries(n: nat, h: spec_fn(int) -> Seq<(Option<u64>, Seq<char>)>) -> Seq<(Option<u64>, Seq<char>)>
    decreases n,
{
    if n == 0 {
        Seq::empty()
    } else {
        ientries((n - 1) as nat, h) + h(n - 1)
    }
}

} // verus!
