//! What validation reports: findings, per-requirement outcomes and their totals.

use vstd::prelude::*;
use crate::declared::RevisionSource;
use crate::requirement::Requirement;
use crate::revision::{ProtocolRevision, revision_text};
use crate::text::owned;

verus! {

/// One violation a check found.
#[derive(Debug)]
pub struct Finding {
    /// The check that found it.
    pub check: String,
    /// The event it is about, when it is about one.
    pub seq: Option<u64>,
    /// An actionable sentence.
    pub detail: String,
}

/// The seqs of a list of findings, in order.
pub open spec fn finding_seqs(findings: Seq<Finding>) -> Seq<Option<u64>> {
    findings.map_values(|f: Finding| f.seq)
}


/// What became of one requirement.
#[derive(Clone, Copy, Debug, PartialEq, Eq, Structural)]
pub enum Outcome {
    /// Judged, and nothing found.
    Pass,
    /// An error-level clause was broken.
    Fail,
    /// A warning-level clause was broken.
    Warn,
    /// The registry excludes the clause from trace judgment.
    Excluded,
    /// This build lacks a check the clause names.
    Unsupported,
    /// The clause depends on a capability the session never declared.
    NotApplicable,
    /// No check found anything to judge.
    NotObserved,
}

/// How many requirements had each outcome.
#[derive(Debug)]
pub struct Totals {
    pub pass: u64,
    pub fail: u64,
    pub warn: u64,
    pub excluded: u64,
    pub unsupported: u64,
    pub not_applicable: u64,
    pub not_observed: u64,
}

impl Default for Totals {
    fn default() -> (t: Totals)
        ensures
            t.pass == 0 && t.fail == 0 && t.warn == 0 && t.excluded == 0 && t.unsupported == 0
                && t.not_applicable == 0 && t.not_observed == 0,
    {
        Totals { pass: 0, fail: 0, warn: 0, excluded: 0, unsupported: 0, not_applicable: 0, not_observed: 0 }
    }
}

/// Where a broken clause is stated: the revision, the section, and its
/// wording.
#[derive(Debug)]
pub struct ClauseSource {
    pub revision: String,
    pub section: String,
    pub quote: String,
}

impl ClauseSource {
    /// The source of `requirement` in `revision`.
    pub fn new(requirement: &Requirement, revision: ProtocolRevision) -> (r: ClauseSource)
        ensures
            r.revision@ == revision_text(revision),
            r.section@ == requirement.section@,
            r.quote@ == requirement.quote@,
    {
        ClauseSource {
            revision: revision.to_text(),
            section: owned(requirement.section.as_str()),
            quote: owned(requirement.quote.as_str()),
        }
    }
}

/// What validation found for one requirement.
#[derive(Debug)]
pub struct RequirementReport {
    /// The requirement's ID.
    pub id: String,
    /// Its level's keyword.
    pub level: String,
    /// What became of it.
    pub outcome: Outcome,
    /// What its checks found, check by check.
    pub findings: Vec<Finding>,
    /// Why it is excluded, when it is.
    pub exclusion: Option<String>,
    /// The checks it names that this build lacks.
    pub missing_checks: Vec<String>,
    /// The capability it depends on, when the session never declared it.
    pub capability: Option<String>,
    /// Where the clause is stated, when it was broken.
    pub source: Option<ClauseSource>,
}

/// A validation report: one row per requirement, in registry order.
#[derive(Debug)]
pub struct Report {
    /// The revision judged against.
    pub revision: String,
    /// The revisions the session declared, when none is the one judged against.
    pub revision_mismatch: Option<Vec<String>>,
    /// How the revision was chosen, when the caller says.
    pub revision_source: Option<RevisionSource>,
    /// How many requirements had each outcome.
    pub totals: Totals,
    /// One row per requirement.
    pub requirements: Vec<RequirementReport>,
}

} // verus!
