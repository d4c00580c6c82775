//! Abstraction and relationship domain types for the identify and
//! relationships stages.
//!
//! `Tier` uses the single-letter wire strings `S`, `M`, `L`;
//! `AbstractionKind` is a free-form string newtype because new kinds appear
//! as heuristics evolve.

use vstd::prelude::*;

use crate::text::{chars_of, eq_str, push_str, string_of};

verus! {

broadcast use vstd::string::group_string_axioms;

/// Complexity tier for an `Abstraction`: drives tutorial depth and diagram
/// requirements.
#[derive(Clone, Copy, Debug, PartialEq, Eq, PartialOrd, Ord, Hash)]
pub enum Tier {
    /// Small: few files, leaf utility.
    S,
    /// Medium: several modules, clear API.
    M,
    /// Large: many files, multi-app, hubs/orchestrators.
    L,
}

/// The wire string of a tier.
pub open spec fn tier_text(t: Tier) -> Seq<char> {
    match t {
        Tier::S => "S"@,
        Tier::M => "M"@,
        Tier::L => "L"@,
    }
}

/// The tier a wire string names, if any.
pub open spec fn tier_of(s: Seq<char>) -> Option<Tier> {
    if s == "S"@ {
        Some(Tier::S)
    } else if s == "M"@ {
        Some(Tier::M)
    } else if s == "L"@ {
        Some(Tier::L)
    } else {
        None
    }
}

impl Tier {
    /// Canonical wire string (`"S"`, `"M"`, or `"L"`).
    pub fn as_str(self) -> (r: &'static str)
        ensures
            r@ == tier_text(self),
    {
        match self {
            Tier::S => "S",
            Tier::M => "M",
            Tier::L => "L",
        }
    }

    /// Parse a wire string into a known tier (`None` for anything else).
    pub fn parse(s: &str) -> (r: Option<Tier>)
        ensures
            r == tier_of(s@),
    {
        let v = chars_of(s);
        if eq_str(&v, "S") {
            Some(Tier::S)
        } else if eq_str(&v, "M") {
            Some(Tier::M)
        } else if eq_str(&v, "L") {
            Some(Tier::L)
        } else {
            None
        }
    }

    /// The wire string as an owned `String` (what `Display` prints).
    pub fn to_string(&self) -> (r: String)
        ensures
            r@ == tier_text(*self),
    {
        self.as_str().to_owned()
    }
}

/// Parsing a tier's wire string gives the tier back.
pub proof fn lemma_tier_round_trip(t: Tier)
    ensures
        tier_of(tier_text(t)) == Some(t),
{
    reveal_strlit("S");
    reveal_strlit("M");
    reveal_strlit("L");
    assert("S"@ =~= seq!['S']);
    assert("M"@ =~= seq!['M']);
    assert("L"@ =~= seq!['L']);
    assert("S"@ != "M"@ && "S"@ != "L"@ && "M"@ != "L"@) by {
        assert("S"@[0] != "M"@[0]);
        assert("S"@[0] != "L"@[0]);
        assert("M"@[0] != "L"@[0]);
    }
}

/// Error returned when a string cannot be parsed into a `Tier`.
#[derive(Debug, Clone, PartialEq, Eq)]
pub struct TierParseError(pub String);

impl TierParseError {
    /// The error message: the rejected input quoted, then the accepted
    /// values.
    pub fn to_string(&self) -> (r: String)
        ensures
            r@ == "invalid tier: "@ + crate::mermaid::str_debug(self.0@)
                + " (expected \"S\", \"M\", or \"L\")"@,
    {
        let mut out: Vec<char> = Vec::new();
        push_str(&mut out, "invalid tier: ");
        let d = crate::mermaid::debug_string(self.0.as_str());
        push_str(&mut out, d.as_str());
        push_str(&mut out, " (expected \"S\", \"M\", or \"L\")");
        string_of(&out)
    }
}

impl core::str::FromStr for Tier {
    type Err = TierParseError;

    fn from_str(s: &str) -> (r: Result<Tier, TierParseError>)
        ensures
            match r {
                Ok(t) => tier_of(s@) == Some(t),
                Err(e) => tier_of(s@) is None && e.0@ == s@,
            },
    {
        match Tier::parse(s) {
            Some(t) => Ok(t),
            None => Err(TierParseError(s.to_owned())),
        }
    }
}

/// Free-form kind label for an `Abstraction`.
#[derive(Clone, Debug, PartialEq, Eq, PartialOrd, Ord, Hash)]
pub struct AbstractionKind(pub String);

impl AbstractionKind {
    /// Construct a kind from a string.
    pub fn new(s: &str) -> (r: AbstractionKind)
        ensures
            r.0@ == s@,
    {
        AbstractionKind(s.to_owned())
    }

    /// Borrow the inner string.
    pub fn as_str(&self) -> (r: &str)
        ensures
            r@ == self.0@,
    {
        self.0.as_str()
    }
}

/// A core concept identified in the codebase.
#[derive(Clone, Debug, PartialEq)]
pub struct Abstraction {
    /// Human-readable name.
    pub name: String,
    /// One-or-two sentence description of the concept.
    pub description: String,
    /// Indices into the crawled file inventory backing this abstraction.
    pub file_indices: Vec<usize>,
    /// Complexity tier controlling tutorial depth and diagram requirements.
    pub tier: Tier,
    /// Free-form kind label.
    pub kind: AbstractionKind,
    /// Monorepo apps this abstraction touches (empty for single-app repos).
    pub apps: Vec<String>,
    /// Best real paths to open first when studying this abstraction.
    pub entry_files: Vec<String>,
}

impl Abstraction {
    /// An abstraction with the given name, description, tier and kind; no
    /// files, apps or entry files yet.
    pub fn new(name: &str, description: &str, tier: Tier, kind: &str) -> (r: Abstraction)
        ensures
            r.name@ == name@,
            r.description@ == description@,
            r.file_indices@.len() == 0,
            r.tier == tier,
            r.kind.0@ == kind@,
            r.apps@.len() == 0,
            r.entry_files@.len() == 0,
    {
        Abstraction {
            name: name.to_owned(),
            description: description.to_owned(),
            file_indices: Vec::new(),
            tier,
            kind: AbstractionKind::new(kind),
            apps: Vec::new(),
            entry_files: Vec::new(),
        }
    }
}

/// A directed edge between two abstractions (indices into the identify
/// result).
#[derive(Clone, Debug, PartialEq)]
pub struct Relationship {
    /// Source abstraction index.
    pub from: usize,
    /// Target abstraction index.
    pub to: usize,
    /// Human-readable edge label.
    pub label: String,
    /// Coarse edge kind (`calls`, `owns`, `publishes`, ...).
    pub kind: String,
}

impl Relationship {
    /// Construct a relationship.
    pub fn new(from: usize, to: usize, label: &str, kind: &str) -> (r: Relationship)
        ensures
            r.from == from,
            r.to == to,
            r.label@ == label@,
            r.kind@ == kind@,
    {
        Relationship { from, to, label: label.to_owned(), kind: kind.to_owned() }
    }
}

/// Output of the identify stage: the abstractions in model output order.
#[derive(Clone, Debug, PartialEq)]
pub struct IdentifyResult {
    /// Identified abstractions.
    pub abstractions: Vec<Abstraction>,
}

impl IdentifyResult {
    /// Construct a result from a vector of abstractions.
    pub fn new(abstractions: Vec<Abstraction>) -> (r: IdentifyResult)
        ensures
            r.abstractions@ == abstractions@,
    {
        IdentifyResult { abstractions }
    }
}

} // verus!
