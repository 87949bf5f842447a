//! Dependency requirement analysis.
//!
//! For every upgrade candidate we look at the dependency declarations of its
//! *candidate* version (sync DB for repo packages, AUR RPC metadata for AUR
//! packages) and classify each one: already satisfied by the installed
//! system, satisfiable only by another package in the upgrade set, or
//! unsatisfiable. The policy engine turns these into promote/block verdicts.

use vstd::prelude::*;

use crate::db::{
    dep_satisfied, dep_views, DepSpec, DepSpecView, LocalDb, MetaView, ProvideView, SyncDb,
    provided_in,
};
use crate::model::{PackageSource, UpgradeCandidate};
use crate::publication::aur::{find_info, info_lookup, AurInfo};
use crate::text::str_eq;

verus! {

/// How a single dependency declaration can be fulfilled.
#[derive(Debug, Clone, PartialEq, Eq)]
pub enum RequirementStatus {
    /// An installed package (or one of its provides) already satisfies it.
    SatisfiedByInstalled { version: String },
    /// Only another package in the upgrade set satisfies it: the candidate
    /// must be upgraded together with (or instead of) the installed version.
    RequiresCandidate { name: String },
    /// Nothing installed or in the upgrade set satisfies it.
    Unsatisfied,
}

/// The abstract value of a [`RequirementStatus`].
pub enum StatusView {
    SatisfiedByInstalled { version: Seq<char> },
    RequiresCandidate { name: Seq<char> },
    Unsatisfied,
}

impl View for RequirementStatus {
    type V = StatusView;

    open spec fn view(&self) -> StatusView {
        match self {
            RequirementStatus::SatisfiedByInstalled { version } => StatusView::SatisfiedByInstalled {
                version: version@,
            },
            RequirementStatus::RequiresCandidate { name } => StatusView::RequiresCandidate {
                name: name@,
            },
            RequirementStatus::Unsatisfied => StatusView::Unsatisfied,
        }
    }
}

/// One dependency edge: `dependent` (an upgrade candidate) needs `dep`.
#[derive(Debug, Clone, PartialEq, Eq)]
pub struct Requirement {
    pub dependent: String,
    pub dep: DepSpec,
    pub status: RequirementStatus,
}

/// The abstract value of a [`Requirement`].
pub struct RequirementView {
    pub dependent: Seq<char>,
    pub dep: DepSpecView,
    pub status: StatusView,
}

impl View for Requirement {
    type V = RequirementView;

    open spec fn view(&self) -> RequirementView {
        RequirementView { dependent: self.dependent@, dep: self.dep@, status: self.status@ }
    }
}

/// Dependency declarations of candidate versions, keyed by candidate name.
/// A later entry for a name replaces an earlier one.
pub type CandidateDeps = Vec<(String, Vec<DepSpec>)>;

/// The declarations recorded for `name`, if any (the last entry wins).
pub open spec fn deps_lookup(m: Seq<(String, Vec<DepSpec>)>, name: Seq<char>) -> Option<
    Seq<DepSpecView>,
>
    decreases m.len(),
{
    if m.len() == 0 {
        None
    } else if m.last().0@ == name {
        Some(dep_views(m.last().1@))
    } else {
        deps_lookup(m.drop_last(), name)
    }
}

/// Index of the last candidate named `name`, or -1.
pub open spec fn last_candidate_index(cs: Seq<UpgradeCandidate>, name: Seq<char>) -> int
    decreases cs.len(),
{
    if cs.len() == 0 {
        -1
    } else if cs.last().name@ == name {
        cs.len() - 1
    } else {
        last_candidate_index(cs.drop_last(), name)
    }
}

/// Does a `provides` entry with version `provided` satisfy `dep`?
/// Unversioned provides only satisfy unversioned deps; versioned provides
/// are compared with the dep's operator.
pub open spec fn provide_ok(dep: DepSpecView, provided: Option<Seq<char>>) -> bool {
    match (dep.constraint, provided) {
        (None, _) => true,
        (Some(_), None) => false,
        (Some(_), Some(p)) => dep_satisfied(dep, p),
    }
}

/// `Some(Some(v))` flattened to `Some(v)`, anything else to `None`.
pub open spec fn flatten(o: Option<Option<Seq<char>>>) -> Option<Seq<char>> {
    match o {
        Some(Some(v)) => Some(v),
        _ => None,
    }
}

/// The first installed provider in `ps` whose provide of `dep.name`
/// satisfies `dep`.
pub open spec fn first_installed_provider(
    ps: Seq<Seq<char>>,
    dep: DepSpecView,
    local: LocalDb,
) -> Option<Seq<char>>
    decreases ps.len(),
{
    if ps.len() == 0 {
        None
    } else if provide_ok(dep, flatten(local.provided_version_spec(ps[0], dep.name))) {
        Some(ps[0])
    } else {
        first_installed_provider(ps.drop_first(), dep, local)
    }
}

/// Whether some provide of `meta` satisfies `dep`.
pub open spec fn meta_provides(meta: MetaView, dep: DepSpecView) -> bool {
    exists|k: int|
        0 <= k < meta.provides.len() && #[trigger] meta.provides[k].name == dep.name && provide_ok(
            dep,
            meta.provides[k].version,
        )
}

/// Whether the sync metadata of candidate `c` provides `dep`.
pub open spec fn candidate_provides(sync: SyncDb, c: UpgradeCandidate, dep: DepSpecView) -> bool {
    match sync.lookup(c.name@) {
        Some(meta) => meta_provides(meta, dep),
        None => false,
    }
}

/// Index of the first candidate whose candidate version provides `dep`.
pub open spec fn first_providing_candidate(
    cs: Seq<UpgradeCandidate>,
    dep: DepSpecView,
    sync: SyncDb,
    from: int,
) -> int
    decreases cs.len() - from,
{
    if from >= cs.len() || from < 0 {
        -1
    } else if candidate_provides(sync, cs[from], dep) {
        from
    } else {
        first_providing_candidate(cs, dep, sync, from + 1)
    }
}

/// How `dep` can be fulfilled: by the installed system, by another
/// candidate, or not at all.
pub open spec fn classify_spec(
    dep: DepSpecView,
    cs: Seq<UpgradeCandidate>,
    sync: SyncDb,
    local: LocalDb,
) -> StatusView {
    let p = last_candidate_index(cs, dep.name);
    if p >= 0 {
        // 1. The dependency is itself in the upgrade set.
        let installed_ok = match local.version_spec(dep.name) {
            Some(v) => dep_satisfied(dep, v),
            None => false,
        };
        if !installed_ok {
            StatusView::RequiresCandidate { name: cs[p].name@ }
        } else {
            StatusView::SatisfiedByInstalled { version: cs[p].installed_version@ }
        }
    } else {
        match local.version_spec(dep.name) {
            // 2. Installed under its own name.
            Some(v) => if dep_satisfied(dep, v) {
                StatusView::SatisfiedByInstalled { version: v }
            } else {
                StatusView::Unsatisfied
            },
            None => match first_installed_provider(local.providers_spec(dep.name), dep, local) {
                // 3. A virtual capability of an installed package.
                Some(provider) => StatusView::SatisfiedByInstalled {
                    version: match local.version_spec(provider) {
                        Some(v) => v,
                        None => "?"@,
                    },
                },
                None => {
                    // 4. A virtual capability of another candidate version.
                    let q = first_providing_candidate(cs, dep, sync, 0);
                    if q >= 0 {
                        StatusView::RequiresCandidate { name: cs[q].name@ }
                    } else {
                        StatusView::Unsatisfied
                    }
                },
            },
        }
    }
}

proof fn lemma_last_candidate_index(cs: Seq<UpgradeCandidate>, name: Seq<char>)
    ensures
        -1 <= last_candidate_index(cs, name) < cs.len(),
        last_candidate_index(cs, name) >= 0 ==> cs[last_candidate_index(cs, name)].name@ == name,
        (exists|k: int| 0 <= k < cs.len() && #[trigger] cs[k].name@ == name) ==> last_candidate_index(
            cs,
            name,
        ) >= 0,
    decreases cs.len(),
{
    if cs.len() > 0 {
        lemma_last_candidate_index(cs.drop_last(), name);
        if cs.last().name@ != name {
            if exists|k: int| 0 <= k < cs.len() && #[trigger] cs[k].name@ == name {
                let k = choose|k: int| 0 <= k < cs.len() && #[trigger] cs[k].name@ == name;
                assert(k < cs.len() - 1);
                assert(cs.drop_last()[k].name@ == name);
            }
        }
    }
}

proof fn lemma_first_providing_candidate(
    cs: Seq<UpgradeCandidate>,
    dep: DepSpecView,
    sync: SyncDb,
    from: int,
)
    ensures
        first_providing_candidate(cs, dep, sync, from) == -1 || (0 <= from <= first_providing_candidate(
            cs,
            dep,
            sync,
            from,
        ) < cs.len()),
    decreases cs.len() - from,
{
    if 0 <= from < cs.len() && !candidate_provides(sync, cs[from], dep) {
        lemma_first_providing_candidate(cs, dep, sync, from + 1);
    }
}

/// The installed system comes first: a dependency that the installed
/// version of its own name satisfies is satisfied by the installed system,
/// even when that package is itself an upgrade candidate, so a requirement
/// only routes through another candidate when the installed system cannot
/// meet it. A requirement that needs a candidate names one of the
/// candidates, and a dependency named like a candidate is never
/// unsatisfiable.
pub proof fn lemma_installed_version_is_preferred(
    dep: DepSpecView,
    cs: Seq<UpgradeCandidate>,
    sync: SyncDb,
    local: LocalDb,
)
    ensures
        (local.version_spec(dep.name) matches Some(v) && dep_satisfied(dep, v)) ==> classify_spec(
            dep,
            cs,
            sync,
            local,
        ) is SatisfiedByInstalled,
        classify_spec(dep, cs, sync, local) matches StatusView::RequiresCandidate { name } ==> exists|
            k: int,
        | 0 <= k < cs.len() && #[trigger] cs[k].name@ == name,
        (exists|k: int| 0 <= k < cs.len() && #[trigger] cs[k].name@ == dep.name) ==> !(classify_spec(
            dep,
            cs,
            sync,
            local,
        ) is Unsatisfied),
{
    lemma_last_candidate_index(cs, dep.name);
    lemma_first_providing_candidate(cs, dep, sync, 0);
    let p = last_candidate_index(cs, dep.name);
    let q = first_providing_candidate(cs, dep, sync, 0);
    if p >= 0 {
        assert(cs[p].name@ == cs[p].name@);
    }
    if q >= 0 {
        assert(cs[q].name@ == cs[q].name@);
    }
}

/// The requirements contributed by candidate `c` with declarations `deps`.
pub open spec fn requirements_for(
    c: UpgradeCandidate,
    deps: Seq<DepSpecView>,
    cs: Seq<UpgradeCandidate>,
    sync: SyncDb,
    local: LocalDb,
) -> Seq<RequirementView>
    decreases deps.len(),
{
    if deps.len() == 0 {
        seq![]
    } else {
        let before = requirements_for(c, deps.drop_last(), cs, sync, local);
        let dep = deps.last();
        // A package never depends on itself for upgrade purposes.
        if dep.name == c.name@ {
            before
        } else {
            before.push(
                RequirementView {
                    dependent: c.name@,
                    dep,
                    status: classify_spec(dep, cs, sync, local),
                },
            )
        }
    }
}

/// The requirements of the first `n` candidates of `cs`, in order.
pub open spec fn analyze_prefix(
    cs: Seq<UpgradeCandidate>,
    n: int,
    m: Seq<(String, Vec<DepSpec>)>,
    sync: SyncDb,
    local: LocalDb,
) -> Seq<RequirementView>
    decreases n,
{
    if n <= 0 {
        seq![]
    } else {
        let before = analyze_prefix(cs, n - 1, m, sync, local);
        match deps_lookup(m, cs[n - 1].name@) {
            Some(deps) => before + requirements_for(cs[n - 1], deps, cs, sync, local),
            None => before,
        }
    }
}

/// Every dependency of every candidate, classified.
pub open spec fn analyze_spec(
    cs: Seq<UpgradeCandidate>,
    m: Seq<(String, Vec<DepSpec>)>,
    sync: SyncDb,
    local: LocalDb,
) -> Seq<RequirementView> {
    analyze_prefix(cs, cs.len() as int, m, sync, local)
}

proof fn lemma_requirements_for_classified(
    c: UpgradeCandidate,
    deps: Seq<DepSpecView>,
    cs: Seq<UpgradeCandidate>,
    sync: SyncDb,
    local: LocalDb,
)
    ensures
        forall|i: int|
            0 <= i < requirements_for(c, deps, cs, sync, local).len() ==> (#[trigger] requirements_for(
                c,
                deps,
                cs,
                sync,
                local,
            )[i]).status == classify_spec(
                requirements_for(c, deps, cs, sync, local)[i].dep,
                cs,
                sync,
                local,
            ),
    decreases deps.len(),
{
    if deps.len() > 0 {
        lemma_requirements_for_classified(c, deps.drop_last(), cs, sync, local);
    }
}

proof fn lemma_analyze_prefix_classified(
    cs: Seq<UpgradeCandidate>,
    n: int,
    m: Seq<(String, Vec<DepSpec>)>,
    sync: SyncDb,
    local: LocalDb,
)
    ensures
        forall|i: int|
            0 <= i < analyze_prefix(cs, n, m, sync, local).len() ==> (#[trigger] analyze_prefix(
                cs,
                n,
                m,
                sync,
                local,
            )[i]).status == classify_spec(analyze_prefix(cs, n, m, sync, local)[i].dep, cs, sync, local),
    decreases n,
{
    if n > 0 {
        lemma_analyze_prefix_classified(cs, n - 1, m, sync, local);
        let before = analyze_prefix(cs, n - 1, m, sync, local);
        match deps_lookup(m, cs[n - 1].name@) {
            Some(deps) => {
                lemma_requirements_for_classified(cs[n - 1], deps, cs, sync, local);
                let rf = requirements_for(cs[n - 1], deps, cs, sync, local);
                let all = analyze_prefix(cs, n, m, sync, local);
                assert forall|i: int| 0 <= i < all.len() implies (#[trigger] all[i]).status
                    == classify_spec(all[i].dep, cs, sync, local) by {
                    if i < before.len() {
                        assert(all[i] == before[i]);
                    } else {
                        assert(all[i] == rf[i - before.len()]);
                    }
                }
            },
            None => {},
        }
    }
}

/// Every requirement the analysis reports follows the installed-first rule
/// of [`lemma_installed_version_is_preferred`]: one whose dependency the
/// installed version of its own name satisfies is satisfied by the
/// installed system, and one that needs a candidate names a candidate.
pub proof fn lemma_analysis_prefers_installed(
    cs: Seq<UpgradeCandidate>,
    m: Seq<(String, Vec<DepSpec>)>,
    sync: SyncDb,
    local: LocalDb,
)
    ensures
        forall|i: int|
            0 <= i < analyze_spec(cs, m, sync, local).len() ==> {
                let r = #[trigger] analyze_spec(cs, m, sync, local)[i];
                &&& (local.version_spec(r.dep.name) matches Some(v) && dep_satisfied(r.dep, v))
                    ==> r.status is SatisfiedByInstalled
                &&& (r.status matches StatusView::RequiresCandidate { name } ==> exists|k: int|
                    0 <= k < cs.len() && #[trigger] cs[k].name@ == name)
            },
{
    lemma_analyze_prefix_classified(cs, cs.len() as int, m, sync, local);
    assert forall|i: int| 0 <= i < analyze_spec(cs, m, sync, local).len() implies {
        let r = #[trigger] analyze_spec(cs, m, sync, local)[i];
        &&& (local.version_spec(r.dep.name) matches Some(v) && dep_satisfied(r.dep, v))
            ==> r.status is SatisfiedByInstalled
        &&& (r.status matches StatusView::RequiresCandidate { name } ==> exists|k: int|
            0 <= k < cs.len() && #[trigger] cs[k].name@ == name)
    } by {
        let r = analyze_spec(cs, m, sync, local)[i];
        lemma_installed_version_is_preferred(r.dep, cs, sync, local);
    }
}

pub open spec fn requirement_views(rs: Seq<Requirement>) -> Seq<RequirementView> {
    rs.map_values(|r: Requirement| r@)
}

/// Classify every dependency of every candidate.
///
/// `candidate_deps` maps candidate name -> dependency declarations of its
/// candidate version. Candidates missing from the map simply contribute no
/// requirements.
pub fn analyze(
    candidates: &[UpgradeCandidate],
    candidate_deps: &CandidateDeps,
    syncdb: &SyncDb,
    localdb: &LocalDb,
) -> (r: Vec<Requirement>)
    ensures
        requirement_views(r@) == analyze_spec(candidates@, candidate_deps@, *syncdb, *localdb),
{
    let mut requirements: Vec<Requirement> = Vec::new();
    let n = candidates.len();
    for i in 0..n
        invariant
            n == candidates@.len(),
            requirement_views(requirements@) == analyze_prefix(
                candidates@,
                i as int,
                candidate_deps@,
                *syncdb,
                *localdb,
            ),
    {
        let candidate = &candidates[i];
        match lookup_deps(candidate_deps, candidate.name.as_str()) {
            None => {},
            Some(deps) => {
                let ghost base = requirements@;
                let ghost dv = dep_views(deps@);
                let m = deps.len();
                for k in 0..m
                    invariant
                        m == deps@.len(),
                        dv == dep_views(deps@),
                        candidate == &candidates@[i as int],
                        requirement_views(requirements@) == requirement_views(base)
                            + requirements_for(
                            *candidate,
                            dv.take(k as int),
                            candidates@,
                            *syncdb,
                            *localdb,
                        ),
                {
                    let dep = &deps[k];
                    assert(dv.take(k + 1).drop_last() == dv.take(k as int));
                    assert(dv.take(k + 1).last() == dep@);
                    if !str_eq(dep.name.as_str(), candidate.name.as_str()) {
                        let status = classify(dep, candidates, syncdb, localdb);
                        let req = Requirement {
                            dependent: candidate.name.clone(),
                            dep: dep.duplicate(),
                            status,
                        };
                        let ghost before = requirements@;
                        requirements.push(req);
                        assert(requirement_views(requirements@) =~= requirement_views(before).push(
                            req@,
                        ));
                    }
                }
                assert(dv.take(m as int) == dv);
                assert(requirement_views(requirements@) == requirement_views(base)
                    + requirements_for(*candidate, dv, candidates@, *syncdb, *localdb));
            },
        }
    }
    requirements
}

/// The declarations recorded for `name` (the last entry wins).
fn lookup_deps<'a>(m: &'a CandidateDeps, name: &str) -> (r: Option<&'a Vec<DepSpec>>)
    ensures
        match r {
            Some(d) => deps_lookup(m@, name@) == Some(dep_views(d@)),
            None => deps_lookup(m@, name@) is None,
        },
{
    let mut i = m.len();
    assert(m@.take(i as int) == m@);
    while i > 0
        invariant
            i <= m@.len(),
            deps_lookup(m@, name@) == deps_lookup(m@.take(i as int), name@),
        decreases i,
    {
        let ghost t = m@.take(i as int);
        assert(t.last() == m@[i - 1]);
        assert(t.drop_last() == m@.take(i - 1));
        if str_eq(m[i - 1].0.as_str(), name) {
            return Some(&m[i - 1].1);
        }
        i = i - 1;
    }
    None
}

/// Index of the last candidate named `name`.
fn find_last_candidate(cs: &[UpgradeCandidate], name: &str) -> (r: Option<usize>)
    ensures
        match r {
            Some(i) => i == last_candidate_index(cs@, name@) && i < cs@.len(),
            None => last_candidate_index(cs@, name@) == -1,
        },
{
    let mut i = cs.len();
    assert(cs@.take(i as int) == cs@);
    while i > 0
        invariant
            i <= cs@.len(),
            last_candidate_index(cs@, name@) == last_candidate_index(cs@.take(i as int), name@),
        decreases i,
    {
        let ghost t = cs@.take(i as int);
        assert(t.last() == cs@[i - 1]);
        assert(t.drop_last() == cs@.take(i - 1));
        if str_eq(cs[i - 1].name.as_str(), name) {
            return Some(i - 1);
        }
        i = i - 1;
    }
    None
}

fn classify(
    dep: &DepSpec,
    candidates: &[UpgradeCandidate],
    syncdb: &SyncDb,
    localdb: &LocalDb,
) -> (r: RequirementStatus)
    ensures
        r@ == classify_spec(dep@, candidates@, *syncdb, *localdb),
{
    // 1. Direct name match in the upgrade set: the dependency will be
    //    satisfied by upgrading that package (its candidate version is by
    //    definition newer than any constraint the installed version failed).
    if let Some(p) = find_last_candidate(candidates, dep.name.as_str()) {
        let provider = &candidates[p];
        // Only route through the candidate if the installed version does not
        // already satisfy the constraint.
        let installed_ok = match localdb.version_of(dep.name.as_str()) {
            Some(v) => dep.satisfied_by(v),
            None => false,
        };
        if !installed_ok {
            return RequirementStatus::RequiresCandidate { name: provider.name.clone() };
        }
        return RequirementStatus::SatisfiedByInstalled {
            version: provider.installed_version.clone(),
        };
    }
    // 2. Installed package with the same name.
    if let Some(version) = localdb.version_of(dep.name.as_str()) {
        if dep.satisfied_by(version) {
            return RequirementStatus::SatisfiedByInstalled { version: version.to_string() };
        }
        // Installed but too old, and not in the upgrade set: pacman would
        // pull it in as part of the transaction, but doing so selectively is
        // exactly the partial-upgrade hazard this tool exists to prevent.
        return RequirementStatus::Unsatisfied;
    }
    // 3. Virtual capability provided by an installed package (`sh` by bash).
    let providers = localdb.providers_of(dep.name.as_str());
    let ghost ps = localdb.providers_spec(dep.name@);
    let np = providers.len();
    assert(providers@.map_values(|s: String| s@) =~= ps);
    assert(ps.skip(0) == ps);
    for k in 0..np
        invariant
            np == providers@.len() == ps.len(),
            forall|j: int| 0 <= j < np ==> #[trigger] providers@[j]@ == ps[j],
            ps == localdb.providers_spec(dep.name@),
            localdb.version_spec(dep.name@) is None,
            last_candidate_index(candidates@, dep.name@) == -1,
            first_installed_provider(ps, dep@, *localdb) == first_installed_provider(
                ps.skip(k as int),
                dep@,
                *localdb,
            ),
    {
        let provider = &providers[k];
        assert(ps.skip(k as int)[0] == provider@);
        assert(ps.skip(k as int).drop_first() == ps.skip(k + 1));
        let pv = localdb.provided_version(provider.as_str(), dep.name.as_str());
        let flat = match pv {
            Some(Some(v)) => Some(v),
            _ => None,
        };
        assert(match flat {
            Some(v) => flatten(localdb.provided_version_spec(provider@, dep.name@)) == Some(v@),
            None => flatten(localdb.provided_version_spec(provider@, dep.name@)) is None,
        });
        if provide_satisfies(dep, flat) {
            let version = match localdb.version_of(provider.as_str()) {
                Some(v) => v.to_string(),
                None => "?".to_string(),
            };
            return RequirementStatus::SatisfiedByInstalled { version };
        }
    }
    assert(ps.skip(np as int).len() == 0);
    // 4. Virtual capability provided by another candidate's *candidate*
    //    version (metadata from the sync DB).
    let nc = candidates.len();
    for j in 0..nc
        invariant
            nc == candidates@.len(),
            localdb.version_spec(dep.name@) is None,
            last_candidate_index(candidates@, dep.name@) == -1,
            first_installed_provider(localdb.providers_spec(dep.name@), dep@, *localdb) is None,
            first_providing_candidate(candidates@, dep@, *syncdb, 0) == first_providing_candidate(
                candidates@,
                dep@,
                *syncdb,
                j as int,
            ),
    {
        let provider = &candidates[j];
        if let Some(meta) = syncdb.get(provider.name.as_str()) {
            let npv = meta.provides.len();
            for t in 0..npv
                invariant
                    npv == meta.provides@.len(),
                    j < nc == candidates@.len(),
                    provider == &candidates@[j as int],
                    localdb.version_spec(dep.name@) is None,
                    last_candidate_index(candidates@, dep.name@) == -1,
                    first_installed_provider(localdb.providers_spec(dep.name@), dep@, *localdb) is None,
                    first_providing_candidate(candidates@, dep@, *syncdb, 0)
                        == first_providing_candidate(candidates@, dep@, *syncdb, j as int),
                    meta@ == syncdb.lookup(provider.name@).unwrap(),
                    syncdb.lookup(provider.name@) is Some,
                    forall|u: int|
                        0 <= u < t ==> !(#[trigger] meta@.provides[u].name == dep@.name
                            && provide_ok(dep@, meta@.provides[u].version)),
            {
                let provide = &meta.provides[t];
                assert(meta@.provides[t as int] == provide@);
                let pv = match &provide.version {
                    Some(v) => Some(v.as_str()),
                    None => None,
                };
                if str_eq(provide.name.as_str(), dep.name.as_str()) && provide_satisfies(dep, pv) {
                    assert(provide@.version == (match pv {
                        Some(p) => Some(p@),
                        None => None::<Seq<char>>,
                    }));
                    assert(meta@.provides[t as int].name == dep@.name && provide_ok(
                        dep@,
                        meta@.provides[t as int].version,
                    ));
                    assert(meta_provides(meta@, dep@));
                    return RequirementStatus::RequiresCandidate { name: provider.name.clone() };
                }
            }
        }
    }
    RequirementStatus::Unsatisfied
}

/// Does a `provides` entry satisfy a (possibly versioned) dependency?
/// Unversioned provides only satisfy unversioned deps; versioned provides
/// are compared with the dep's operator.
pub fn provide_satisfies(dep: &DepSpec, provided_version: Option<&str>) -> (r: bool)
    ensures
        r == provide_ok(
            dep@,
            match provided_version {
                Some(p) => Some(p@),
                None => None,
            },
        ),
{
    match (&dep.constraint, provided_version) {
        (None, _) => true,
        (Some(_), None) => false,
        (Some(_), Some(provided)) => dep.satisfied_by(provided),
    }
}

} // verus!

verus! {

/// The dependency declarations of a candidate's *candidate* version: sync
/// database metadata for repository packages, AUR RPC data for AUR ones;
/// `None` when the source does not describe that version.
pub open spec fn declared_deps(
    c: UpgradeCandidate,
    syncdb: SyncDb,
    aur_infos: Seq<AurInfo>,
) -> Option<Seq<DepSpecView>> {
    match c.source {
        PackageSource::Repo => match syncdb.lookup(c.name@) {
            Some(meta) => if meta.version == c.candidate_version@ {
                Some(meta.depends)
            } else {
                None
            },
            None => None,
        },
        PackageSource::Aur => match info_lookup(aur_infos, c.name@) {
            Some(info) => if info.version@ == c.candidate_version@ {
                Some(dep_views(info.depends@))
            } else {
                None
            },
            None => None,
        },
    }
}

/// The declared dependencies of each candidate that has them, in order.
pub open spec fn collected_deps(
    cs: Seq<UpgradeCandidate>,
    syncdb: SyncDb,
    aur_infos: Seq<AurInfo>,
) -> Seq<(Seq<char>, Seq<DepSpecView>)>
    decreases cs.len(),
{
    if cs.len() == 0 {
        seq![]
    } else {
        let rest = collected_deps(cs.drop_last(), syncdb, aur_infos);
        match declared_deps(cs.last(), syncdb, aur_infos) {
            Some(d) => rest.push((cs.last().name@, d)),
            None => rest,
        }
    }
}

/// The views of a dependency map.
pub open spec fn candidate_deps_views(m: Seq<(String, Vec<DepSpec>)>) -> Seq<
    (Seq<char>, Seq<DepSpecView>),
> {
    m.map_values(|e: (String, Vec<DepSpec>)| (e.0@, dep_views(e.1@)))
}

fn copy_deps(v: &Vec<DepSpec>) -> (r: Vec<DepSpec>)
    ensures
        dep_views(r@) == dep_views(v@),
{
    let mut out: Vec<DepSpec> = Vec::new();
    let n = v.len();
    for i in 0..n
        invariant
            n == v@.len(),
            dep_views(out@) == dep_views(v@.take(i as int)),
    {
        let ghost before = out@;
        out.push(v[i].duplicate());
        assert(dep_views(out@) =~= dep_views(before).push(v@[i as int]@));
        assert(dep_views(v@.take(i + 1)) =~= dep_views(v@.take(i as int)).push(v@[i as int]@));
    }
    assert(v@.take(n as int) == v@);
    out
}

/// Gather the dependency declarations of each candidate's *candidate*
/// version: sync DB metadata for repo packages, AUR RPC data for AUR ones.
pub fn collect_candidate_deps(
    candidates: &[UpgradeCandidate],
    syncdb: &SyncDb,
    aur_infos: &Vec<AurInfo>,
) -> (r: CandidateDeps)
    ensures
        candidate_deps_views(r@) == collected_deps(candidates@, *syncdb, aur_infos@),
{
    let mut map: CandidateDeps = Vec::new();
    let n = candidates.len();
    for i in 0..n
        invariant
            n == candidates@.len(),
            candidate_deps_views(map@) == collected_deps(
                candidates@.take(i as int),
                *syncdb,
                aur_infos@,
            ),
    {
        let c = &candidates[i];
        assert(candidates@.take(i + 1).drop_last() == candidates@.take(i as int));
        assert(candidates@.take(i + 1).last() == *c);
        let deps: Option<Vec<DepSpec>> = match c.source {
            PackageSource::Repo => match syncdb.get(c.name.as_str()) {
                Some(meta) => if str_eq(meta.version.as_str(), c.candidate_version.as_str()) {
                    Some(copy_deps(&meta.depends))
                } else {
                    None
                },
                None => None,
            },
            PackageSource::Aur => match find_info(aur_infos, c.name.as_str()) {
                Some(info) => if str_eq(info.version.as_str(), c.candidate_version.as_str()) {
                    Some(copy_deps(&info.depends))
                } else {
                    None
                },
                None => None,
            },
        };
        if let Some(d) = deps {
            let ghost before = map@;
            let ghost dv = dep_views(d@);
            map.push((c.name.clone(), d));
            assert(candidate_deps_views(map@) =~= candidate_deps_views(before).push((c.name@, dv)));
        }
    }
    assert(candidates@.take(n as int) == candidates@);
    map
}

} // verus!
