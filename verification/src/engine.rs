//! The validation engine: registry × trace → report.
//!
//! Validation builds the trace context once, then walks the registry in
//! registry order, producing exactly one row per requirement. A check shared
//! by several requirements runs once per requirement that names it: the same
//! evidence breaking two clauses is two findings.

use vstd::prelude::*;
use crate::checks::{Check, CheckOutcome, CheckRun, find, registered, check_sites, reads_declarations, check_subjects, check_entries, finding_views};
use crate::checks::negotiation::ungated_site;
use crate::checks::sites::lemma_sites_none;
use crate::context::life_after;
use crate::checks::support::{server_surface, client_surface};
use crate::context::TraceContext;
use crate::declared::{mismatch, none_in, declared_known, ascending};
use crate::json::Json;
use crate::pairing::pairing_after;
use crate::report::{ClauseSource, Finding, Outcome, Report, RequirementReport, Totals};
use crate::requirement::{CapabilityGate, CapabilityParty, Registry, Requirement, Verification, gate_declared, dotted};
use crate::revision::{ProtocolRevision, revision_text};
use crate::text::{owned, texts, u64_text, push_text};
use crate::trace::{TraceEvent, seq_increasing};

verus! {

/// The outcome of a judged requirement: pass when its checks found nothing,
/// else fail at an error level and warn below it.
pub open spec fn classified(is_error_level: bool, clean: bool) -> Outcome {
    if clean {
        Outcome::Pass
    } else if is_error_level {
        Outcome::Fail
    } else {
        Outcome::Warn
    }
}

fn classify_outcome(is_error_level: bool, clean: bool) -> (r: Outcome)
    ensures
        r == classified(is_error_level, clean),
{
    if clean {
        Outcome::Pass
    } else if is_error_level {
        Outcome::Fail
    } else {
        Outcome::Warn
    }
}

/// The counter of `totals` that counts `outcome`.
pub open spec fn counter(totals: Totals, outcome: Outcome) -> u64 {
    match outcome {
        Outcome::Pass => totals.pass,
        Outcome::Fail => totals.fail,
        Outcome::Warn => totals.warn,
        Outcome::Excluded => totals.excluded,
        Outcome::Unsupported => totals.unsupported,
        Outcome::NotApplicable => totals.not_applicable,
        Outcome::NotObserved => totals.not_observed,
    }
}

/// How many of `outcomes` are `outcome`.
pub open spec fn count_outcome(outcomes: Seq<Outcome>, outcome: Outcome) -> nat
    decreases outcomes.len(),
{
    if outcomes.len() == 0 {
        0
    } else {
        count_outcome(outcomes.drop_last(), outcome) + if outcomes.last() == outcome { 1nat } else { 0nat }
    }
}

/// The outcomes of a list of rows, in order.
pub open spec fn row_outcomes(rows: Seq<RequirementReport>) -> Seq<Outcome> {
    rows.map_values(|r: RequirementReport| r.outcome)
}

/// Whether every counter of `totals` counts its outcome among `outcomes`.
pub open spec fn tallied(totals: Totals, outcomes: Seq<Outcome>) -> bool {
    forall|o: Outcome| #[trigger] counter(totals, o) == count_outcome(outcomes, o)
}

/// The sum of all counters.
pub open spec fn total(t: Totals) -> int {
    t.pass + t.fail + t.warn + t.excluded + t.unsupported + t.not_applicable + t.not_observed
}

/// No outcome is counted more often than there are outcomes.
proof fn lemma_count_bounded(outcomes: Seq<Outcome>, outcome: Outcome)
    ensures
        count_outcome(outcomes, outcome) <= outcomes.len(),
    decreases outcomes.len(),
{
    if outcomes.len() > 0 {
        lemma_count_bounded(outcomes.drop_last(), outcome);
    }
}

/// Every outcome falls in exactly one counter: the counts of the seven
/// outcomes add up to the number of outcomes.
pub proof fn lemma_counts_partition(outcomes: Seq<Outcome>)
    ensures
        count_outcome(outcomes, Outcome::Pass) + count_outcome(outcomes, Outcome::Fail)
            + count_outcome(outcomes, Outcome::Warn) + count_outcome(outcomes, Outcome::Excluded)
            + count_outcome(outcomes, Outcome::Unsupported) + count_outcome(outcomes, Outcome::NotApplicable)
            + count_outcome(outcomes, Outcome::NotObserved) == outcomes.len(),
    decreases outcomes.len(),
{
    if outcomes.len() > 0 {
        lemma_counts_partition(outcomes.drop_last());
    }
}

/// Counts `outcome` in `totals`.
fn tally(totals: &mut Totals, outcome: Outcome)
    requires
        counter(*old(totals), outcome) < u64::MAX,
    ensures
        forall|o: Outcome| #[trigger] counter(*final(totals), o)
            == counter(*old(totals), o) + if o == outcome { 1int } else { 0int },
{
    match outcome {
        Outcome::Pass => totals.pass = totals.pass + 1,
        Outcome::Fail => totals.fail = totals.fail + 1,
        Outcome::Warn => totals.warn = totals.warn + 1,
        Outcome::Excluded => totals.excluded = totals.excluded + 1,
        Outcome::Unsupported => totals.unsupported = totals.unsupported + 1,
        Outcome::NotApplicable => totals.not_applicable = totals.not_applicable + 1,
        Outcome::NotObserved => totals.not_observed = totals.not_observed + 1,
    }
}

/// The declaration surface a gate of `party` reads.
pub open spec fn surface(party: CapabilityParty, events: Seq<TraceEvent>) -> Option<Json> {
    match party {
        CapabilityParty::Server => server_surface(events),
        CapabilityParty::Client => client_surface(events),
    }
}

/// Whether `gate` names a capability the session never declared.
pub open spec fn gate_undeclared(gate: Option<CapabilityGate>, events: Seq<TraceEvent>) -> bool {
    match gate {
        Some(g) => !gate_declared(texts(g.path@), surface(g.party, events)),
        None => false,
    }
}

/// The requirement's capability gate, when the session never declared it.
fn undeclared_gate<'r>(requirement: &'r Requirement, context: &TraceContext<'_>) -> (r: Option<&'r CapabilityGate>)
    ensures
        r is Some <==> gate_undeclared(requirement.capability, context.trace()),
        r matches Some(g) ==> requirement.capability == Some(*g),
{
    let gate = match &requirement.capability {
        Some(g) => g,
        None => { return None; },
    };
    let capabilities = match gate.party {
        CapabilityParty::Server => context.server_capabilities(),
        CapabilityParty::Client => context.client_capabilities(),
    };
    if gate.is_declared(capabilities) {
        None
    } else {
        Some(gate)
    }
}

/// The check IDs among `ids` that this build does not register, in order.
pub open spec fn missing_ids(ids: Seq<Seq<char>>) -> Seq<Seq<char>>
    decreases ids.len(),
{
    if ids.len() == 0 {
        Seq::empty()
    } else if registered(ids.last()) is None {
        missing_ids(ids.drop_last()).push(ids.last())
    } else {
        missing_ids(ids.drop_last())
    }
}

/// What the check registered under `id` finds over a trace: each finding as
/// the check's ID and the finding's seq.
pub open spec fn id_sites(id: Seq<char>, events: Seq<TraceEvent>, pairs: Seq<Option<usize>>)
    -> Seq<(Seq<char>, Option<u64>)>
{
    match registered(id) {
        Some(run) => check_sites(run, events, pairs).map_values(|s: Option<u64>| (id, s)),
        None => Seq::empty(),
    }
}

/// What the checks `ids` find over a trace, check after check.
pub open spec fn ids_sites(ids: Seq<Seq<char>>, events: Seq<TraceEvent>, pairs: Seq<Option<usize>>)
    -> Seq<(Seq<char>, Option<u64>)>
    decreases ids.len(),
{
    if ids.len() == 0 {
        Seq::empty()
    } else {
        ids_sites(ids.drop_last(), events, pairs) + id_sites(ids.last(), events, pairs)
    }
}

/// Each finding as its check's ID and its seq.
pub open spec fn stamped(findings: Seq<Finding>) -> Seq<(Seq<char>, Option<u64>)> {
    findings.map_values(|f: Finding| (f.check@, f.seq))
}

/// The request each event of a trace answers, as validation pairs them.
pub open spec fn trace_pairs(events: Seq<TraceEvent>) -> Seq<Option<usize>> {
    pairing_after(events, events.len() as nat).1
}

/// Whether the check registered under `id` judges what a session declared.
pub open spec fn reads_registered(id: Seq<char>) -> bool {
    match registered(id) {
        Some(run) => reads_declarations(run),
        None => false,
    }
}

/// Whether every check among `ids` judges what a session declared.
pub open spec fn all_read_declarations(ids: Seq<Seq<char>>) -> bool {
    forall|k: int| 0 <= k < ids.len() ==> reads_registered(#[trigger] ids[k])
}

/// A check that judges what a session declared finds nothing where the trace
/// carries no `initialize` result.
proof fn lemma_declaration_checks_silent(run: CheckRun, events: Seq<TraceEvent>, pairs: Seq<Option<usize>>)
    requires
        reads_declarations(run),
        life_after(events).init.result is None,
    ensures
        check_sites(run, events, pairs).len() == 0,
{
    if run == CheckRun::NegotiatedCapabilitiesOnly {
        let f = |e: TraceEvent| ungated_site(events, e);
        assert forall|i: int| 0 <= i < events.len() implies f(#[trigger] events[i]).len() == 0 by {}
        lemma_sites_none(events, f);
    }
}

/// The subject count of the check registered under `id`, over a trace.
pub open spec fn id_subjects(id: Seq<char>, events: Seq<TraceEvent>, pairs: Seq<Option<usize>>) -> Option<u32> {
    match registered(id) {
        Some(run) => check_subjects(run, events, pairs),
        None => None,
    }
}

/// Whether a subject count shows something examined: an unrecorded count
/// does.
pub open spec fn observed_count(count: Option<u32>) -> bool {
    match count {
        Some(n) => n > 0,
        None => true,
    }
}

/// Whether any of the checks `ids` examined something over a trace.
pub open spec fn observed_in(ids: Seq<Seq<char>>, events: Seq<TraceEvent>, pairs: Seq<Option<usize>>) -> bool
    decreases ids.len(),
{
    ids.len() > 0 && (observed_in(ids.drop_last(), events, pairs) || observed_count(id_subjects(ids.last(), events, pairs)))
}

/// The findings, as (seq, sentence), of the check registered under `id`,
/// where this build states its sentences.
pub open spec fn id_entries(id: Seq<char>, events: Seq<TraceEvent>, pairs: Seq<Option<usize>>)
    -> Option<Seq<(Option<u64>, Seq<char>)>>
{
    match registered(id) {
        Some(run) => check_entries(run, events, pairs),
        None => None,
    }
}

/// The findings, as (seq, sentence), of the checks `ids` in order, where this
/// build states the sentences of every one of them.
pub open spec fn ids_entries(ids: Seq<Seq<char>>, events: Seq<TraceEvent>, pairs: Seq<Option<usize>>)
    -> Option<Seq<(Option<u64>, Seq<char>)>>
    decreases ids.len(),
{
    if ids.len() == 0 {
        Some(Seq::empty())
    } else {
        match (ids_entries(ids.drop_last(), events, pairs), id_entries(ids.last(), events, pairs)) {
            (Some(a), Some(b)) => Some(a + b),
            _ => None,
        }
    }
}

/// What a row says of a requirement whose checks all exist: not applicable
/// with the capability path when the session never declared that capability; otherwise
/// the findings of its checks, judged by the level.
pub open spec fn judged_row(req: Requirement, ids: Seq<Seq<char>>, events: Seq<TraceEvent>, row: RequirementReport) -> bool {
    if gate_undeclared(req.capability, events) {
        &&& row.outcome == Outcome::NotApplicable
        &&& row.findings@.len() == 0
        &&& (req.capability matches Some(g) && row.capability matches Some(c) && c@ == dotted(texts(g.path@)))
    } else {
        &&& row.capability is None
        &&& stamped(row.findings@) == ids_sites(ids, events, trace_pairs(events))
        &&& ids_entries(ids, events, trace_pairs(events)) matches Some(es) ==> finding_views(row.findings@) == es
        &&& row.findings@.len() > 0 ==> row.outcome == classified(req.level.spec_is_error(), false)
        &&& row.findings@.len() == 0 ==> (row.outcome == Outcome::Pass || row.outcome == Outcome::NotObserved)
        &&& all_read_declarations(ids) && life_after(events).init.result is None
                ==> row.outcome == Outcome::NotObserved && row.findings@.len() == 0
        &&& row.outcome == Outcome::NotObserved
                <==> row.findings@.len() == 0 && !observed_in(ids, events, trace_pairs(events))
    }
}

/// Whether `row` is what validation reports for `req` over `events`, judged
/// against `revision`.
pub open spec fn row_agrees(req: Requirement, revision: ProtocolRevision, events: Seq<TraceEvent>, row: RequirementReport) -> bool {
    &&& row.id@ == req.id@
    &&& row.level@ == req.level.spec_keyword()
    &&& match req.verification {
        Verification::Excluded { exclusion } => {
            &&& row.outcome == Outcome::Excluded
            &&& (row.exclusion matches Some(e) && e@ == exclusion@)
            &&& row.findings@.len() == 0
            &&& row.missing_checks@.len() == 0
            &&& row.capability is None
        },
        Verification::Checks { checks } => {
            &&& row.exclusion is None
            &&& texts(row.missing_checks@) == missing_ids(texts(checks@))
            &&& if missing_ids(texts(checks@)).len() > 0 {
                &&& row.outcome == Outcome::Unsupported
                &&& row.findings@.len() == 0
                &&& row.capability is None
            } else {
                judged_row(req, texts(checks@), events, row)
            }
        },
    }
    &&& (row.outcome == Outcome::Fail || row.outcome == Outcome::Warn) <==> row.source is Some
    &&& row.source matches Some(s) ==> s.revision@ == revision_text(revision) && s.section@ == req.section@
        && s.quote@ == req.quote@
}

/// Builds the row of `requirement`.
///
/// The checks a requirement names are resolved before its capability gate is
/// consulted: whether a requirement is unsupported depends on the registry and
/// this build, never on what a particular trace declared.
fn build_row(requirement: &Requirement, revision: ProtocolRevision, context: &TraceContext<'_>) -> (row: RequirementReport)
    requires
        context.pairs() == trace_pairs(context.trace()),
    ensures
        row_agrees(*requirement, revision, context.trace(), row),
{
    let mut outcome = Outcome::Unsupported;
    let mut findings: Vec<Finding> = Vec::new();
    let mut exclusion: Option<String> = None;
    let mut missing: Vec<String> = Vec::new();
    let mut capability: Option<String> = None;
    match &requirement.verification {
        Verification::Excluded { exclusion: why } => {
            outcome = Outcome::Excluded;
            exclusion = Some(owned(why.as_str()));
        },
        Verification::Checks { checks: check_ids } => {
            let ghost ids = texts(check_ids@);
            let mut resolved: Vec<Check> = Vec::new();
            let mut i: usize = 0;
            assert(ids.take(0) =~= Seq::<Seq<char>>::empty());
            while i < check_ids.len()
                invariant
                    ids == texts(check_ids@),
                    i <= check_ids@.len(),
                    texts(missing@) == missing_ids(ids.take(i as int)),
                    missing_ids(ids.take(i as int)).len() == 0 ==> resolved@.len() == i,
                    missing_ids(ids.take(i as int)).len() == 0 ==> forall|k: int| 0 <= k < i ==>
                        (#[trigger] resolved@[k]).id_text() == ids[k] && registered(ids[k]) == Some(resolved@[k].runs()),
                decreases check_ids@.len() - i,
            {
                assert(ids.take(i + 1).drop_last() =~= ids.take(i as int));
                assert(ids.take(i + 1).last() == check_ids@[i as int]@);
                match find(check_ids[i].as_str()) {
                    Some(check) => {
                        resolved.push(check);
                    },
                    None => {
                        missing.push(owned(check_ids[i].as_str()));
                        assert(texts(missing@) =~= missing_ids(ids.take(i as int)).push(check_ids@[i as int]@));
                    },
                }
                i = i + 1;
            }
            assert(ids.take(check_ids@.len() as int) =~= ids);
            if missing.len() == 0 {
                match undeclared_gate(requirement, context) {
                    Some(gate) => {
                        outcome = Outcome::NotApplicable;
                        capability = Some(gate.as_str());
                    },
                    None => {
                        let mut observed = false;
                        let mut k: usize = 0;
                        assert(ids.take(0) =~= Seq::<Seq<char>>::empty());
                        assert(stamped(findings@) =~= Seq::<(Seq<char>, Option<u64>)>::empty());
                        while k < resolved.len()
                            invariant
                                resolved@.len() == ids.len(),
                                forall|j: int| 0 <= j < ids.len() ==>
                                    (#[trigger] resolved@[j]).id_text() == ids[j] && registered(ids[j]) == Some(resolved@[j].runs()),
                                k <= resolved@.len(),
                                stamped(findings@) == ids_sites(ids.take(k as int), context.trace(), context.pairs()),
                                all_read_declarations(ids) && life_after(context.trace()).init.result is None
                                    ==> !observed && findings@.len() == 0,
                                observed == observed_in(ids.take(k as int), context.trace(), context.pairs()),
                                ids_entries(ids.take(k as int), context.trace(), context.pairs()) matches Some(es)
                                    ==> finding_views(findings@) == es,
                            decreases resolved@.len() - k,
                        {
                            let mut result: CheckOutcome = resolved[k].run(context);
                            let ghost run_findings = result.findings@;
                            let ghost before = findings@;
                            proof {
                                if all_read_declarations(ids) && life_after(context.trace()).init.result is None {
                                    assert(reads_registered(ids[k as int]));
                                    lemma_declaration_checks_silent(resolved@[k as int].runs(), context.trace(), context.pairs());
                                    assert(crate::report::finding_seqs(run_findings).len() == run_findings.len());
                                }
                            }
                            observed = observed || match result.subjects {
                                Some(n) => n > 0,
                                None => true,
                            };
                            findings.append(&mut result.findings);
                            proof {
                                let id = ids[k as int];
                                assert(resolved@[k as int].id_text() == id);
                                assert(stamped(run_findings) =~= id_sites(id, context.trace(), context.pairs())) by {
                                    assert forall|j: int| 0 <= j < run_findings.len() implies
                                        #[trigger] run_findings[j].seq == check_sites(resolved@[k as int].runs(),
                                            context.trace(), context.pairs())[j] by {
                                        assert(crate::report::finding_seqs(run_findings)[j] == run_findings[j].seq);
                                    }
                                    assert(crate::report::finding_seqs(run_findings).len() == run_findings.len());
                                }
                                assert(stamped(findings@) =~= stamped(before) + stamped(run_findings));
                                assert(finding_views(findings@) =~= finding_views(before) + finding_views(run_findings));
                                assert(ids.take(k + 1).drop_last() =~= ids.take(k as int));
                                assert(ids.take(k + 1).last() == id);
                            }
                            k = k + 1;
                        }
                        assert(ids.take(resolved@.len() as int) =~= ids);
                        outcome = if findings.len() == 0 && !observed {
                            Outcome::NotObserved
                        } else {
                            classify_outcome(requirement.level.is_error(), findings.len() == 0)
                        };
                    },
                }
            } else {
                outcome = Outcome::Unsupported;
            }
        },
    }
    let source = match outcome {
        Outcome::Fail | Outcome::Warn => Some(ClauseSource::new(requirement, revision)),
        _ => None,
    };
    RequirementReport {
        id: owned(requirement.id.as_str()),
        level: owned(requirement.level.keyword()),
        outcome,
        findings,
        exclusion,
        missing_checks: missing,
        capability,
        source,
    }
}

/// What a report says of the revisions the trace declared, when none is the
/// one judged against: nothing when the trace declares none or declares that
/// one; else every known revision it declares, ascending.
pub open spec fn mismatch_agrees(revision: ProtocolRevision, events: Seq<TraceEvent>, r: Option<Vec<String>>) -> bool {
    &&& r is None <==> (none_in(declared_known(events)) || declared_known(events).contains(revision_text(revision)))
    &&& r matches Some(v) ==> ascending(texts(v@)) && texts(v@).to_set() == declared_known(events)
}

/// Whether `report` is what validating `events` against `registry` gives:
/// one row per requirement, in registry order, and totals that count the
/// rows' outcomes.
pub open spec fn validated(registry: Registry, events: Seq<TraceEvent>, report: Report) -> bool {
    let requirements = registry.spec_requirements();
    let revision = registry.spec_revision();
    &&& report.revision@ == revision_text(revision)
    &&& mismatch_agrees(revision, events, report.revision_mismatch)
    &&& report.revision_source is None
    &&& report.requirements@.len() == requirements.len()
    &&& forall|i: int| 0 <= i < requirements.len() ==>
            row_agrees(requirements[i], revision, events, #[trigger] report.requirements@[i])
    &&& tallied(report.totals, row_outcomes(report.requirements@))
}

fn validate_ordered(registry: &Registry, events: &[TraceEvent]) -> (report: Report)
    ensures
        validated(*registry, events@, report),
{
    let context = TraceContext::new(events);
    let mut totals = Totals::default();
    let mut rows: Vec<RequirementReport> = Vec::new();
    let requirements = registry.requirements();
    let revision = registry.revision();
    let mut i: usize = 0;
    assert(row_outcomes(rows@) =~= Seq::<Outcome>::empty());
    assert forall|o: Outcome| #[trigger] counter(totals, o) == count_outcome(row_outcomes(rows@), o) by {}
    while i < requirements.len()
        invariant
            context.trace() == events@,
            context.pairs() == trace_pairs(events@),
            requirements@ == registry.spec_requirements(),
            revision == registry.spec_revision(),
            i <= requirements@.len(),
            rows@.len() == i,
            forall|k: int| 0 <= k < i ==> row_agrees(requirements@[k], revision, events@, #[trigger] rows@[k]),
            tallied(totals, row_outcomes(rows@)),
        decreases requirements@.len() - i,
    {
        let row = build_row(&requirements[i], revision, &context);
        let ghost before = rows@;
        let ghost old_totals = totals;
        proof {
            lemma_count_bounded(row_outcomes(before), row.outcome);
            assert(counter(totals, row.outcome) == count_outcome(row_outcomes(before), row.outcome));
        }
        tally(&mut totals, row.outcome);
        rows.push(row);
        proof {
            assert(row_outcomes(rows@).drop_last() =~= row_outcomes(before));
            assert(row_outcomes(rows@).last() == rows@[i as int].outcome);
            assert forall|o: Outcome| #[trigger] counter(totals, o) == count_outcome(row_outcomes(rows@), o) by {
                assert(counter(old_totals, o) == count_outcome(row_outcomes(before), o));
            }
        }
        i = i + 1;
    }
    Report {
        revision: revision.to_text(),
        revision_mismatch: mismatch(revision, events),
        revision_source: None,
        totals,
        requirements: rows,
    }
}

/// Every requirement of a validated registry is counted exactly once: the
/// totals of the report add up to the number of requirements.
pub proof fn lemma_totals_count_every_requirement(registry: Registry, events: Seq<TraceEvent>, report: Report)
    requires
        validated(registry, events, report),
    ensures
        total(report.totals) == registry.spec_requirements().len(),
{
    let outcomes = row_outcomes(report.requirements@);
    lemma_counts_partition(outcomes);
    assert(counter(report.totals, Outcome::Pass) == count_outcome(outcomes, Outcome::Pass));
    assert(counter(report.totals, Outcome::Fail) == count_outcome(outcomes, Outcome::Fail));
    assert(counter(report.totals, Outcome::Warn) == count_outcome(outcomes, Outcome::Warn));
    assert(counter(report.totals, Outcome::Excluded) == count_outcome(outcomes, Outcome::Excluded));
    assert(counter(report.totals, Outcome::Unsupported) == count_outcome(outcomes, Outcome::Unsupported));
    assert(counter(report.totals, Outcome::NotApplicable) == count_outcome(outcomes, Outcome::NotApplicable));
    assert(counter(report.totals, Outcome::NotObserved) == count_outcome(outcomes, Outcome::NotObserved));
}

/// Whether a requirement is unsupported depends on the registry and this
/// build alone: two traces validated against the same requirement agree on
/// it.
pub proof fn lemma_unsupported_ignores_trace(
    requirement: Requirement,
    revision: ProtocolRevision,
    first: Seq<TraceEvent>,
    first_row: RequirementReport,
    second: Seq<TraceEvent>,
    second_row: RequirementReport,
)
    requires
        row_agrees(requirement, revision, first, first_row),
        row_agrees(requirement, revision, second, second_row),
    ensures
        (first_row.outcome == Outcome::Unsupported) <==> (second_row.outcome == Outcome::Unsupported),
        first_row.missing_checks@.len() == second_row.missing_checks@.len(),
{
}

/// Checks that all judge declarations are all registered.
proof fn lemma_none_missing(ids: Seq<Seq<char>>)
    requires
        all_read_declarations(ids),
    ensures
        missing_ids(ids).len() == 0,
    decreases ids.len(),
{
    if ids.len() > 0 {
        assert(all_read_declarations(ids.drop_last())) by {
            assert forall|k: int| 0 <= k < ids.drop_last().len() implies reads_registered(#[trigger] ids.drop_last()[k]) by {
                assert(reads_registered(ids[k]));
            }
        }
        lemma_none_missing(ids.drop_last());
        assert(reads_registered(ids[ids.len() - 1]));
    }
}

/// A session whose declarations are not in the trace earns no verdict on
/// whether it declared them: a requirement judged only by checks that read
/// declarations, and gated on no capability of its own, is not observed, with
/// no finding, where the trace carries no `initialize` result.
pub proof fn lemma_no_declarations_no_verdict(
    requirement: Requirement,
    revision: ProtocolRevision,
    events: Seq<TraceEvent>,
    row: RequirementReport,
)
    requires
        row_agrees(requirement, revision, events, row),
        requirement.verification matches Verification::Checks { checks } && all_read_declarations(texts(checks@)),
        requirement.capability is None,
        life_after(events).init.result is None,
    ensures
        row.outcome == Outcome::NotObserved,
        row.findings@.len() == 0,
        row.source is None,
{
    if let Verification::Checks { checks } = requirement.verification {
        lemma_none_missing(texts(checks@));
    }
}

/// Validates a trace against a requirement registry.
///
/// The trace's events must have strictly increasing `seq`, as every trace
/// that [`events_from_records`](crate::trace::events_from_records) accepts
/// does; [`try_validate`] checks that first.
pub fn validate(registry: &Registry, events: &[TraceEvent]) -> (report: Report)
    requires
        seq_increasing(events@),
    ensures
        validated(*registry, events@, report),
{
    validate_ordered(registry, events)
}

/// Events out of `seq` order: the trace format requires `seq` strictly
/// increasing, and several checks rely on it.
#[derive(Clone, Copy, Debug, PartialEq, Eq, Structural)]
pub struct SeqOrderError {
    /// Index of the first event whose `seq` is not greater than its
    /// predecessor's.
    pub index: usize,
    /// That event's `seq`.
    pub seq: u64,
    /// The preceding event's `seq`.
    pub previous: u64,
}

/// The sentence that describes a `seq` order error.
pub open spec fn order_error_text(index: nat, seq: nat, previous: nat) -> Seq<char> {
    "event "@ + crate::text::decimal(index) + " has seq "@ + crate::text::decimal(seq)
        + ", not greater than the preceding seq "@ + crate::text::decimal(previous)
        + "; trace events must have strictly increasing seq"@
}

impl SeqOrderError {
    /// The error as a sentence.
    pub fn describe(&self) -> (r: String)
        ensures
            r@ == order_error_text(self.index as nat, self.seq as nat, self.previous as nat),
    {
        let mut out = String::new();
        push_text(&mut out, "event ");
        push_text(&mut out, u64_text(self.index as u64).as_str());
        push_text(&mut out, " has seq ");
        push_text(&mut out, u64_text(self.seq).as_str());
        push_text(&mut out, ", not greater than the preceding seq ");
        push_text(&mut out, u64_text(self.previous).as_str());
        push_text(&mut out, "; trace events must have strictly increasing seq");
        proof {
            assert(out@ =~= order_error_text(self.index as nat, self.seq as nat, self.previous as nat));
        }
        out
    }
}

/// [`validate`] for events whose order nobody checked: the same report, or
/// an error naming the first pair of events out of `seq` order.
pub fn try_validate(registry: &Registry, events: &[TraceEvent]) -> (r: Result<Report, SeqOrderError>)
    ensures
        r is Ok <==> seq_increasing(events@),
        r matches Ok(report) ==> validated(*registry, events@, report),
        r matches Err(e) ==> {
            &&& 0 < e.index < events@.len()
            &&& e.seq == events@[e.index as int].seq
            &&& e.previous == events@[e.index - 1].seq
            &&& e.seq <= e.previous
            &&& seq_increasing(events@.take(e.index as int))
        },
{
    if events.len() == 0 {
        return Ok(validate_ordered(registry, events));
    }
    let mut i: usize = 1;
    assert(seq_increasing(events@.take(1)));
    while i < events.len()
        invariant
            1 <= i <= events@.len(),
            seq_increasing(events@.take(i as int)),
        decreases events@.len() - i,
    {
        if events[i - 1].seq >= events[i].seq {
            return Err(SeqOrderError { index: i, seq: events[i].seq, previous: events[i - 1].seq });
        }
        proof {
            assert forall|k: int| 0 < k < i + 1 implies #[trigger] events@.take(i + 1)[k].seq > events@.take(i + 1)[k - 1].seq by {
                if k < i {
                    assert(events@.take(i as int)[k].seq > events@.take(i as int)[k - 1].seq);
                }
            }
        }
        i = i + 1;
    }
    assert(events@.take(i as int) =~= events@);
    Ok(validate_ordered(registry, events))
}

} // verus!
