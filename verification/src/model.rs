//! Shared domain types used across discovery, publication, policy and output.

use vstd::prelude::*;

verus! {

/// Where an upgrade candidate originates from.
#[derive(Debug, Clone, Copy, PartialEq, Eq, Hash, Structural)]
pub enum PackageSource {
    /// Official Arch repositories (discovered via `pacman -Qu`).
    Repo,
    /// Arch User Repository (discovered via the configured AUR helper's `-Qua`).
    Aur,
}

impl PackageSource {
    /// The label shown in reports (`Display`).
    pub open spec fn label(self) -> Seq<char> {
        match self {
            PackageSource::Repo => "repo"@,
            PackageSource::Aur => "aur"@,
        }
    }

    pub fn as_str(&self) -> (r: &'static str)
        ensures
            r@ == self.label(),
    {
        match self {
            PackageSource::Repo => "repo",
            PackageSource::Aur => "aur",
        }
    }
}

/// A single package that could be upgraded.
#[derive(Debug, Clone, PartialEq, Eq)]
pub struct UpgradeCandidate {
    pub name: String,
    pub installed_version: String,
    pub candidate_version: String,
    pub source: PackageSource,
}

impl UpgradeCandidate {
    pub fn duplicate(&self) -> (r: UpgradeCandidate)
        ensures
            r == *self,
    {
        UpgradeCandidate {
            name: self.name.clone(),
            installed_version: self.installed_version.clone(),
            candidate_version: self.candidate_version.clone(),
            source: self.source,
        }
    }
}

/// How a publication timestamp was determined. This is surfaced in the output
/// so users can audit why a decision was made.
#[derive(Debug, Clone, Copy, PartialEq, Eq, Structural)]
pub enum PublicationBasis {
    /// First appearance in the Arch Linux Archive package pool.
    Archive,
    /// `%BUILDDATE%` from the repository sync database (fallback).
    RepoBuildDate,
    /// AUR `LastModified` field. Heuristic only: the AUR RPC exposes no
    /// per-version publication timestamp.
    AurLastModified,
    /// Commit date of the commit that introduced the candidate version in the
    /// AUR package's git repository. Accurate per-version timestamp.
    AurGit,
    /// No timestamp could be determined.
    Unknown,
}

impl PublicationBasis {
    /// The label shown in reports (`Display`).
    pub open spec fn label(self) -> Seq<char> {
        match self {
            PublicationBasis::Archive => "archive"@,
            PublicationBasis::RepoBuildDate => "repo-builddate"@,
            PublicationBasis::AurLastModified => "aur-lastmodified (heuristic)"@,
            PublicationBasis::AurGit => "aur-git"@,
            PublicationBasis::Unknown => "unknown"@,
        }
    }

    pub fn as_str(&self) -> (r: &'static str)
        ensures
            r@ == self.label(),
    {
        match self {
            PublicationBasis::Archive => "archive",
            PublicationBasis::RepoBuildDate => "repo-builddate",
            PublicationBasis::AurLastModified => "aur-lastmodified (heuristic)",
            PublicationBasis::AurGit => "aur-git",
            PublicationBasis::Unknown => "unknown",
        }
    }
}

/// Publication information for one candidate version.
#[derive(Debug, Clone, Copy, PartialEq, Eq, Structural)]
pub struct Publication {
    /// Unix timestamp of first publication, if known.
    pub published_at: Option<i64>,
    pub basis: PublicationBasis,
}

impl Publication {
    /// No known publication time.
    pub open spec fn unknown_spec() -> Publication {
        Publication { published_at: None, basis: PublicationBasis::Unknown }
    }

    pub fn unknown() -> (r: Self)
        ensures
            r == Publication::unknown_spec(),
    {
        Publication { published_at: None, basis: PublicationBasis::Unknown }
    }

    pub fn known(published_at: i64, basis: PublicationBasis) -> (r: Self)
        ensures
            r.published_at == Some(published_at),
            r.basis == basis,
    {
        Publication { published_at: Some(published_at), basis }
    }
}

/// The final verdict for one candidate.
#[derive(Debug, Clone, Copy, PartialEq, Eq, Structural)]
pub enum Verdict {
    /// Old enough (or explicitly allowed): safe to upgrade.
    Allow,
    /// Too young, unknown age, explicitly blocked, or blocked for dependency
    /// safety.
    Block,
    /// Younger than the threshold but required as a dependency of an allowed
    /// upgrade (`dependency-respecting` policy only).
    Promote,
}

impl Verdict {
    /// The label shown in reports (`Display`).
    pub open spec fn label(self) -> Seq<char> {
        match self {
            Verdict::Allow => "allow"@,
            Verdict::Block => "block"@,
            Verdict::Promote => "promote"@,
        }
    }

    pub fn as_str(&self) -> (r: &'static str)
        ensures
            r@ == self.label(),
    {
        match self {
            Verdict::Allow => "allow",
            Verdict::Block => "block",
            Verdict::Promote => "promote",
        }
    }
}

/// Whole days between `ts` and `now`, rounded toward negative infinity
/// (`div_euclid`).
pub open spec fn whole_days(now: int, ts: int) -> int {
    (now - ts) / 86_400
}

/// Whether `now - ts` fits an `i64`, as the age computation requires.
pub open spec fn age_fits(now: i64, ts: i64) -> bool {
    i64::MIN <= now - ts <= i64::MAX
}

/// Age in whole days of something published at `ts`, seen at `now`.
pub fn age_in_days(now: i64, ts: i64) -> (r: i64)
    requires
        age_fits(now, ts),
    ensures
        r == whole_days(now as int, ts as int),
{
    let diff = now - ts;
    let q = diff / 86_400;
    let rem = diff % 86_400;
    if rem < 0 {
        proof {
            assert(diff == q * 86_400 + rem);
            assert(whole_days(now as int, ts as int) == q - 1) by (nonlinear_arith)
                requires
                    diff == now - ts,
                    diff == q * 86_400 + rem,
                    -86_400 < rem < 0,
            ;
        }
        q - 1
    } else {
        proof {
            assert(whole_days(now as int, ts as int) == q) by (nonlinear_arith)
                requires
                    diff == now - ts,
                    diff == q * 86_400 + rem,
                    0 <= rem < 86_400,
            ;
        }
        q
    }
}

/// A candidate together with its publication info and the policy verdict.
#[derive(Debug, Clone)]
pub struct Decision {
    pub candidate: UpgradeCandidate,
    pub publication: Publication,
    pub verdict: Verdict,
    /// Human-readable audit trail explaining the verdict.
    pub reasons: Vec<String>,
}

/// The abstract value of a [`Decision`].
pub struct DecisionView {
    pub candidate: UpgradeCandidate,
    pub publication: Publication,
    pub verdict: Verdict,
    pub reasons: Seq<Seq<char>>,
}

/// The characters of each string.
pub open spec fn string_views(v: Seq<String>) -> Seq<Seq<char>> {
    v.map_values(|s: String| s@)
}

impl View for Decision {
    type V = DecisionView;

    open spec fn view(&self) -> DecisionView {
        DecisionView {
            candidate: self.candidate,
            publication: self.publication,
            verdict: self.verdict,
            reasons: string_views(self.reasons@),
        }
    }
}

/// The abstract values of a list of decisions.
pub open spec fn decision_views(v: Seq<Decision>) -> Seq<DecisionView> {
    v.map_values(|d: Decision| d@)
}

impl Decision {
    /// Age of the candidate version in whole days, if publication is known.
    pub fn age_days(&self, now: i64) -> (r: Option<i64>)
        requires
            self.publication.published_at matches Some(ts) ==> age_fits(now, ts),
        ensures
            match self.publication.published_at {
                Some(ts) => r is Some && r->0 == whole_days(now as int, ts as int),
                None => r is None,
            },
    {
        match self.publication.published_at {
            Some(ts) => Some(age_in_days(now, ts)),
            None => None,
        }
    }
}

} // verus!
