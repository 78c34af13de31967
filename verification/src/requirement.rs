//! Requirement registries: the clauses of one protocol revision, each with
//! its normative level, how it is verified, and the capability it depends on.

use vstd::prelude::*;
use crate::checks::support::resolve;
use crate::json::Json;
use crate::revision::ProtocolRevision;
use crate::text::{owned, push_text, texts};

verus! {

/// A clause's RFC 2119 level.
#[derive(Clone, Copy, Debug, PartialEq, Eq, Structural)]
pub enum Level {
    Must,
    MustNot,
    Should,
    ShouldNot,
    May,
}

impl Level {
    /// Whether breaking the clause is an error (rather than a warning).
    pub open spec fn spec_is_error(self) -> bool {
        self == Level::Must || self == Level::MustNot
    }

    /// Whether breaking the clause is an error (rather than a warning).
    pub fn is_error(&self) -> (r: bool)
        ensures
            r == self.spec_is_error(),
    {
        match self {
            Level::Must => true,
            Level::MustNot => true,
            _ => false,
        }
    }

    /// The level's keyword.
    pub open spec fn spec_keyword(self) -> Seq<char> {
        match self {
            Level::Must => "MUST"@,
            Level::MustNot => "MUST NOT"@,
            Level::Should => "SHOULD"@,
            Level::ShouldNot => "SHOULD NOT"@,
            Level::May => "MAY"@,
        }
    }

    /// The level's keyword.
    pub fn keyword(&self) -> (r: &'static str)
        ensures
            r@ == self.spec_keyword(),
    {
        match self {
            Level::Must => "MUST",
            Level::MustNot => "MUST NOT",
            Level::Should => "SHOULD",
            Level::ShouldNot => "SHOULD NOT",
            Level::May => "MAY",
        }
    }
}

/// Which party's capabilities a gate reads.
#[derive(Clone, Copy, Debug, PartialEq, Eq, Structural)]
pub enum CapabilityParty {
    Server,
    Client,
}

/// The capability a requirement depends on: whose, and its path (such as
/// `resources.subscribe`).
pub struct CapabilityGate {
    pub party: CapabilityParty,
    pub path: Vec<String>,
}

/// `items` joined by `"."`.
pub open spec fn dotted(items: Seq<Seq<char>>) -> Seq<char>
    decreases items.len(),
{
    if items.len() == 0 {
        Seq::empty()
    } else if items.len() == 1 {
        items[0]
    } else {
        dotted(items.drop_last()) + "."@ + items.last()
    }
}

/// Whether a declaration surface declares `path`: it is present, and the path
/// resolves to something other than `null` or `false`.
pub open spec fn gate_declared(path: Seq<Seq<char>>, capabilities: Option<Json>) -> bool {
    match capabilities {
        Some(c) => match resolve(c, path) {
            Some(v) => !(v is Null) && v != Json::Bool(false),
            None => false,
        },
        None => false,
    }
}

impl CapabilityGate {
    /// The capability path, joined by dots.
    pub fn as_str(&self) -> (r: String)
        ensures
            r@ == dotted(texts(self.path@)),
    {
        let ghost ts = texts(self.path@);
        let mut out = String::new();
        let mut i: usize = 0;
        while i < self.path.len()
            invariant
                ts == texts(self.path@),
                i <= self.path@.len(),
                out@ == dotted(ts.take(i as int)),
            decreases self.path@.len() - i,
        {
            proof {
                reveal_strlit(".");
                assert(ts.take(i + 1).drop_last() =~= ts.take(i as int));
            }
            if i > 0 {
                push_text(&mut out, ".");
            }
            push_text(&mut out, self.path[i].as_str());
            proof {
                if i == 0 {
                    assert(out@ =~= ts.take(1)[0]);
                }
            }
            i = i + 1;
        }
        assert(ts.take(self.path@.len() as int) =~= ts);
        out
    }

    /// Whether `capabilities` declares the path of this gate.
    pub fn is_declared(&self, capabilities: Option<&Json>) -> (r: bool)
        ensures
            r == gate_declared(texts(self.path@), crate::message::opt(capabilities)),
    {
        let mut current = match capabilities {
            Some(c) => c,
            None => { return false; },
        };
        let ghost ts = texts(self.path@);
        let ghost root = *current;
        assert(ts.skip(0) =~= ts);
        let mut i: usize = 0;
        while i < self.path.len()
            invariant
                ts == texts(self.path@),
                capabilities == Some(&root),
                i <= self.path@.len(),
                resolve(root, ts) == resolve(*current, ts.skip(i as int)),
            decreases self.path@.len() - i,
        {
            proof { assert(ts.skip(i as int).drop_first() =~= ts.skip(i + 1)); }
            match current.get(self.path[i].as_str()) {
                Some(next) => { current = next; },
                None => { return false; },
            }
            i = i + 1;
        }
        proof {
            assert(ts.skip(self.path@.len() as int) =~= Seq::<Seq<char>>::empty());
        }
        !current.is_null() && !current.is_false()
    }
}

/// How a requirement is verified: excluded with a reason, or by checks.
pub enum Verification {
    /// Not judgeable from a trace, and why.
    Excluded { exclusion: String },
    /// Judged by the checks with these IDs.
    Checks { checks: Vec<String> },
}

/// One clause of a revision.
pub struct Requirement {
    /// The requirement's stable ID.
    pub id: String,
    /// Its normative level.
    pub level: Level,
    /// How it is verified.
    pub verification: Verification,
    /// The capability it depends on, when it depends on one.
    pub capability: Option<CapabilityGate>,
    /// Where in the specification it is stated.
    pub section: String,
    /// The clause's wording.
    pub quote: String,
}

/// The requirements of one protocol revision, in registry order.
pub struct Registry {
    revision: ProtocolRevision,
    requirements: Vec<Requirement>,
}

impl Registry {
    /// The revision the registry describes.
    pub closed spec fn spec_revision(self) -> ProtocolRevision {
        self.revision
    }

    /// The requirements, in registry order.
    pub closed spec fn spec_requirements(self) -> Seq<Requirement> {
        self.requirements@
    }

    /// A registry of `requirements` for `revision`.
    pub fn new(revision: ProtocolRevision, requirements: Vec<Requirement>) -> (r: Registry)
        ensures
            r.spec_revision() == revision,
            r.spec_requirements() == requirements@,
    {
        Registry { revision, requirements }
    }

    /// The revision the registry describes.
    pub fn revision(&self) -> (r: ProtocolRevision)
        ensures
            r == self.spec_revision(),
    {
        self.revision
    }

    /// The requirements, in registry order.
    pub fn requirements(&self) -> (r: &Vec<Requirement>)
        ensures
            r@ == self.spec_requirements(),
    {
        &self.requirements
    }
}

} // verus!
