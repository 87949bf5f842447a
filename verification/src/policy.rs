//! Policy engine: combines publication age with dependency safety.
//!
//! Phase 1 assigns each candidate an age-based verdict (allow/block, subject
//! to `always_allow`/`always_block` and the unknown-age rule). Phase 2 then
//! iterates dependency requirements to a fixpoint:
//!
//! - `dependency-respecting` (default): a required younger dependency is
//!   *promoted* into the upgrade set; a dependency that cannot be promoted
//!   (e.g. `always_block`, or its own requirement is unsatisfiable) blocks
//!   its dependents instead.
//! - `strict-closure`: no promotions; any candidate whose requirements are
//!   not satisfied by installed packages or age-allowed candidates is
//!   blocked, transitively.
//!
//! Under both, coupled candidates move together. A held-back dependent of
//! an upgrading candidate is promoted alongside it (`dependency-respecting`,
//! when its block is by age alone) or the candidate is blocked. Every change
//! either promotes a block that is by age alone or blocks an upgrade, so the
//! iteration always settles.

use vstd::prelude::*;

use crate::config::{Config, DependencyPolicy};
use crate::db::{DepOp, DepSpec, DepSpecView};
use crate::deps::{Requirement, RequirementView, StatusView, RequirementStatus, requirement_views};
use crate::model::{
    age_fits, age_in_days, decision_views, string_views, whole_days, Decision, DecisionView,
    Publication, PublicationBasis, UpgradeCandidate, Verdict,
};
use crate::text::{contains, contains_exec, occurs_at, chars_of, decimal, decimal_int, push_i64, push_str, push_u64};

verus! {

// ---------------------------------------------------------------------------
// Phase 1: age verdicts
// ---------------------------------------------------------------------------

/// Whether `name` occurs in the list.
pub open spec fn listed(names: Seq<String>, name: Seq<char>) -> bool {
    exists|i: int| 0 <= i < names.len() && #[trigger] names[i]@ == name
}

/// The publication recorded for `name` (the last entry wins), or unknown.
pub open spec fn publication_for(pubs: Seq<(String, Publication)>, name: Seq<char>) -> Publication
    decreases pubs.len(),
{
    if pubs.len() == 0 {
        Publication { published_at: None, basis: PublicationBasis::Unknown }
    } else if pubs.last().0@ == name {
        pubs.last().1
    } else {
        publication_for(pubs.drop_last(), name)
    }
}

/// Whether the verdict for `c` depends on its age.
pub open spec fn age_decides(c: UpgradeCandidate, config: Config) -> bool {
    !listed(config.always_block@, c.name@) && !listed(config.always_allow@, c.name@)
}

/// `published {age}d ago, meets|below {min}d minimum ({basis})`.
pub open spec fn age_reason(age: int, min: u32, meets: bool, basis: PublicationBasis) -> Seq<char> {
    "published "@ + decimal_int(age) + (if meets {
        "d ago, meets "@
    } else {
        "d ago, below "@
    }) + decimal(min as nat) + "d minimum ("@ + basis.label() + ")"@
}

/// The age-based verdict and its reason, before dependency rules apply.
pub open spec fn age_outcome(c: UpgradeCandidate, p: Publication, config: Config, now: i64) -> (
    Verdict,
    Seq<char>,
) {
    if listed(config.always_block@, c.name@) {
        (Verdict::Block, "matched always_block in configuration"@)
    } else if listed(config.always_allow@, c.name@) {
        (Verdict::Allow, "matched always_allow in configuration"@)
    } else {
        match p.published_at {
            None => if config.allow_unknown {
                (Verdict::Allow, "publication time unknown; allowed by allow_unknown"@)
            } else {
                (
                    Verdict::Block,
                    "publication time unknown; blocked by default (see allow_unknown)"@,
                )
            },
            Some(ts) => {
                let age = whole_days(now as int, ts as int);
                let meets = age >= config.min_age_days;
                (
                    if meets {
                        Verdict::Allow
                    } else {
                        Verdict::Block
                    },
                    age_reason(age, config.min_age_days, meets, p.basis),
                )
            },
        }
    }
}

/// The phase-1 decision for `c`.
pub open spec fn age_decision(c: UpgradeCandidate, p: Publication, config: Config, now: i64) -> DecisionView {
    let (verdict, reason) = age_outcome(c, p, config, now);
    DecisionView { candidate: c, publication: p, verdict, reasons: seq![reason] }
}

/// The phase-1 decisions, in discovery order.
pub open spec fn initial_decisions(
    cs: Seq<UpgradeCandidate>,
    pubs: Seq<(String, Publication)>,
    config: Config,
    now: i64,
) -> Seq<DecisionView> {
    Seq::new(cs.len(), |i: int| age_decision(cs[i], publication_for(pubs, cs[i].name@), config, now))
}

/// No age computation can overflow: every candidate whose verdict depends
/// on its age has a publication time within `i64` range of `now`.
pub open spec fn ages_fit(
    cs: Seq<UpgradeCandidate>,
    pubs: Seq<(String, Publication)>,
    config: Config,
    now: i64,
) -> bool {
    forall|i: int|
        0 <= i < cs.len() && age_decides(cs[i], config) ==> match #[trigger] publication_for(
            pubs,
            cs[i].name@,
        ).published_at {
            Some(ts) => age_fits(now, ts),
            None => true,
        }
}

// ---------------------------------------------------------------------------
// Phase 2: dependency rules
// ---------------------------------------------------------------------------

pub open spec fn is_upgraded(v: Verdict) -> bool {
    v != Verdict::Block
}

/// `name` followed by the operator and version of the constraint, if any.
pub open spec fn dep_text(dep: DepSpecView) -> Seq<char> {
    match dep.constraint {
        Some((op, version)) => dep.name + crate::db::op_text(op) + version,
        None => dep.name,
    }
}

/// Index of the first decision for `name`, or -1.
pub open spec fn decision_index(ds: Seq<DecisionView>, name: Seq<char>) -> int
    decreases ds.len(),
{
    if ds.len() == 0 {
        -1
    } else if ds[0].candidate.name@ == name {
        0
    } else {
        let r = decision_index(ds.drop_first(), name);
        if r < 0 {
            -1
        } else {
            r + 1
        }
    }
}

/// `d` with a new verdict and one more reason.
pub open spec fn with_verdict(d: DecisionView, v: Verdict, reason: Seq<char>) -> DecisionView {
    DecisionView { verdict: v, reasons: d.reasons.push(reason), ..d }
}

/// A decision blocked by configuration: `always_block` appears in a reason.
pub open spec fn hard_blocked(d: DecisionView) -> bool {
    exists|i: int| 0 <= i < d.reasons.len() && contains(#[trigger] d.reasons[i], "always_block"@)
}

pub open spec fn unsatisfied_reason(dep: DepSpecView, what: Seq<char>) -> Seq<char> {
    "blocked: candidate version requires "@ + dep_text(dep) + ", which no installed package or "@
        + what + " provides"@
}

pub open spec fn always_block_reason(dep: DepSpecView, name: Seq<char>) -> Seq<char> {
    "blocked: requires "@ + dep_text(dep) + ", but "@ + name + " is blocked by always_block"@
}

pub open spec fn promote_reason(dependent: Seq<char>, dep: DepSpecView) -> Seq<char> {
    "promoted despite age: required by "@ + dependent + " ("@ + dep_text(dep) + ")"@
}

pub open spec fn not_allowed_reason(dep: DepSpecView, name: Seq<char>) -> Seq<char> {
    "blocked: requires "@ + dep_text(dep) + ", but "@ + name + " is not allowed by the age policy"@
}

/// `blocked: requires {dep}, but {name} is held back`: the required
/// candidate was itself blocked by a dependency rule.
pub open spec fn held_back_reason(dep: DepSpecView, name: Seq<char>) -> Seq<char> {
    "blocked: requires "@ + dep_text(dep) + ", but "@ + name + " is held back"@
}

/// Why a held-back dependent is promoted together with its dependency.
pub open spec fn alongside_reason(dependency: Seq<char>, dep: DepSpecView) -> Seq<char> {
    "promoted despite age: upgraded together with its dependency "@ + dependency + " ("@
        + dep_text(dep) + ")"@
}

/// Why a dependency is blocked when a dependent of it is held back.
pub open spec fn coupled_block_reason(dependent: Seq<char>, dep: DepSpecView) -> Seq<char> {
    "blocked: "@ + dependent + " depends on it ("@ + dep_text(dep) + ") and is held back"@
}

/// A blocked decision that may still be promoted: blocked by age alone
/// (only its age reason so far) and not by configuration.
pub open spec fn promotable(d: DecisionView, hard: bool) -> bool {
    d.verdict == Verdict::Block && d.reasons.len() == 1 && !hard
}

/// The candidate a requirement's dependency names, if it is one: the
/// required candidate, or the candidate named by a dependency the
/// installed system already satisfies. The two are coupled: upgrading the
/// dependency alone would leave the dependent built against the old one.
pub open spec fn coupled_index(ds: Seq<DecisionView>, req: RequirementView) -> int {
    match req.status {
        StatusView::SatisfiedByInstalled { .. } => decision_index(ds, req.dep.name),
        StatusView::RequiresCandidate { name } => decision_index(ds, name),
        StatusView::Unsatisfied => -1,
    }
}

/// One requirement under `dependency-respecting`: the new decisions and
/// whether anything changed. An upgraded dependent whose requirement is
/// unsatisfiable is blocked; a required candidate that is blocked is
/// promoted when it may be, else the dependent is blocked. A held-back
/// dependent of an upgraded candidate is promoted alongside when it may
/// be, else that candidate is blocked.
pub open spec fn respecting_step(ds: Seq<DecisionView>, hard: Seq<bool>, req: RequirementView) -> (
    Seq<DecisionView>,
    bool,
) {
    let a = decision_index(ds, req.dependent);
    if a < 0 {
        (ds, false)
    } else if is_upgraded(ds[a].verdict) {
        match req.status {
            StatusView::SatisfiedByInstalled { .. } => (ds, false),
            StatusView::Unsatisfied => (
                ds.update(
                    a,
                    with_verdict(ds[a], Verdict::Block, unsatisfied_reason(req.dep, "upgrade candidate"@)),
                ),
                true,
            ),
            StatusView::RequiresCandidate { name } => {
                let b = decision_index(ds, name);
                if b < 0 || ds[b].verdict != Verdict::Block {
                    (ds, false)
                } else if promotable(ds[b], hard[b]) {
                    (
                        ds.update(
                            b,
                            with_verdict(ds[b], Verdict::Promote, promote_reason(req.dependent, req.dep)),
                        ),
                        true,
                    )
                } else {
                    (
                        ds.update(
                            a,
                            with_verdict(
                                ds[a],
                                Verdict::Block,
                                if hard[b] {
                                    always_block_reason(req.dep, name)
                                } else {
                                    held_back_reason(req.dep, name)
                                },
                            ),
                        ),
                        true,
                    )
                }
            },
        }
    } else {
        let b = coupled_index(ds, req);
        if b < 0 || b == a || !is_upgraded(ds[b].verdict) {
            (ds, false)
        } else if promotable(ds[a], hard[a]) {
            (
                ds.update(
                    a,
                    with_verdict(
                        ds[a],
                        Verdict::Promote,
                        alongside_reason(ds[b].candidate.name@, req.dep),
                    ),
                ),
                true,
            )
        } else {
            (
                ds.update(
                    b,
                    with_verdict(ds[b], Verdict::Block, coupled_block_reason(req.dependent, req.dep)),
                ),
                true,
            )
        }
    }
}

/// One requirement under `strict-closure`: an upgraded dependent whose
/// requirement is not met by installed packages or an age-allowed
/// candidate is blocked; an upgraded candidate with a held-back dependent
/// is blocked.
pub open spec fn strict_step(ds: Seq<DecisionView>, req: RequirementView) -> (
    Seq<DecisionView>,
    bool,
) {
    let a = decision_index(ds, req.dependent);
    if a < 0 {
        (ds, false)
    } else if is_upgraded(ds[a].verdict) {
        let reason: Option<Seq<char>> = match req.status {
            StatusView::SatisfiedByInstalled { .. } => None,
            StatusView::Unsatisfied => Some(unsatisfied_reason(req.dep, "allowed candidate"@)),
            StatusView::RequiresCandidate { name } => {
                let b = decision_index(ds, name);
                if b >= 0 && ds[b].verdict == Verdict::Allow {
                    None
                } else {
                    Some(not_allowed_reason(req.dep, name))
                }
            },
        };
        match reason {
            Some(r) => (ds.update(a, with_verdict(ds[a], Verdict::Block, r)), true),
            None => (ds, false),
        }
    } else {
        let b = coupled_index(ds, req);
        if b < 0 || b == a || !is_upgraded(ds[b].verdict) {
            (ds, false)
        } else {
            (
                ds.update(
                    b,
                    with_verdict(ds[b], Verdict::Block, coupled_block_reason(req.dependent, req.dep)),
                ),
                true,
            )
        }
    }
}

/// One pass over all requirements, in order.
pub open spec fn pass(
    ds: Seq<DecisionView>,
    hard: Seq<bool>,
    reqs: Seq<RequirementView>,
    strict: bool,
) -> (Seq<DecisionView>, bool)
    decreases reqs.len(),
{
    if reqs.len() == 0 {
        (ds, false)
    } else {
        let (before, changed) = pass(ds, hard, reqs.drop_last(), strict);
        let (after, now_changed) = if strict {
            strict_step(before, reqs.last())
        } else {
            respecting_step(before, hard, reqs.last())
        };
        (after, changed || now_changed)
    }
}

/// The decisions after `k` passes.
pub open spec fn passes(
    ds: Seq<DecisionView>,
    hard: Seq<bool>,
    reqs: Seq<RequirementView>,
    strict: bool,
    k: nat,
) -> Seq<DecisionView>
    decreases k,
{
    if k == 0 {
        ds
    } else {
        pass(passes(ds, hard, reqs, strict, (k - 1) as nat), hard, reqs, strict).0
    }
}

/// Pass `k + 1` changes nothing: the iteration has settled after `k` passes.
pub open spec fn settled_at(
    ds: Seq<DecisionView>,
    hard: Seq<bool>,
    reqs: Seq<RequirementView>,
    strict: bool,
    k: nat,
) -> bool {
    !pass(passes(ds, hard, reqs, strict, k), hard, reqs, strict).1
}

/// `result` is the fixpoint the iteration first reaches.
pub open spec fn fixpoint_of(
    ds: Seq<DecisionView>,
    hard: Seq<bool>,
    reqs: Seq<RequirementView>,
    strict: bool,
    result: Seq<DecisionView>,
) -> bool {
    exists|k: nat|
        {
            &&& settled_at(ds, hard, reqs, strict, k)
            &&& forall|j: nat| j < k ==> !settled_at(ds, hard, reqs, strict, j)
            &&& result == passes(ds, hard, reqs, strict, k)
        }
}

/// Which phase-1 decisions are blocked by configuration.
pub open spec fn hard_flags(ds: Seq<DecisionView>) -> Seq<bool> {
    Seq::new(ds.len(), |i: int| hard_blocked(ds[i]))
}

/// The final decisions: the phase-1 decisions carried to the fixpoint of
/// the configured dependency policy.
pub open spec fn evaluation(
    cs: Seq<UpgradeCandidate>,
    pubs: Seq<(String, Publication)>,
    reqs: Seq<RequirementView>,
    config: Config,
    now: i64,
    result: Seq<DecisionView>,
) -> bool {
    let ds = initial_decisions(cs, pubs, config, now);
    fixpoint_of(
        ds,
        hard_flags(ds),
        reqs,
        config.dependency_policy == DependencyPolicy::StrictClosure,
        result,
    )
}

} // verus!

verus! {

// ---------------------------------------------------------------------------
// Executable policy
// ---------------------------------------------------------------------------

fn contains_name(list: &Vec<String>, name: &String) -> (r: bool)
    ensures
        r == listed(list@, name@),
{
    let n = list.len();
    for i in 0..n
        invariant
            n == list@.len(),
            forall|j: int| 0 <= j < i ==> list@[j]@ != name@,
    {
        if list[i] == *name {
            assert(list@[i as int]@ == name@);
            return true;
        }
    }
    false
}

fn lookup_publication(pubs: &[(String, Publication)], name: &String) -> (r: Publication)
    ensures
        r == publication_for(pubs@, name@),
{
    let mut i = pubs.len();
    assert(pubs@.take(i as int) == pubs@);
    while i > 0
        invariant
            i <= pubs@.len(),
            publication_for(pubs@, name@) == publication_for(pubs@.take(i as int), name@),
        decreases i,
    {
        let ghost t = pubs@.take(i as int);
        assert(t.last() == pubs@[i - 1]);
        assert(t.drop_last() == pubs@.take(i - 1));
        if pubs[i - 1].0 == *name {
            return pubs[i - 1].1;
        }
        i = i - 1;
    }
    Publication::unknown()
}

fn age_reason_text(age: i64, min: u32, meets: bool, basis: PublicationBasis) -> (r: String)
    ensures
        r@ == age_reason(age as int, min, meets, basis),
{
    let mut s = String::new();
    push_str(&mut s, "published ");
    push_i64(&mut s, age);
    if meets {
        push_str(&mut s, "d ago, meets ");
    } else {
        push_str(&mut s, "d ago, below ");
    }
    push_u64(&mut s, min as u64);
    push_str(&mut s, "d minimum (");
    push_str(&mut s, basis.as_str());
    push_str(&mut s, ")");
    s
}

/// The age-based verdict before dependency rules are applied.
fn age_verdict(
    candidate: &UpgradeCandidate,
    publication: &Publication,
    config: &Config,
    now: i64,
) -> (r: Decision)
    requires
        age_decides(*candidate, *config) ==> match publication.published_at {
            Some(ts) => age_fits(now, ts),
            None => true,
        },
    ensures
        r@ == age_decision(*candidate, *publication, *config, now),
{
    let name = &candidate.name;
    let (verdict, reason) = if contains_name(&config.always_block, name) {
        (Verdict::Block, "matched always_block in configuration".to_string())
    } else if contains_name(&config.always_allow, name) {
        (Verdict::Allow, "matched always_allow in configuration".to_string())
    } else {
        match publication.published_at {
            None => {
                if config.allow_unknown {
                    (Verdict::Allow, "publication time unknown; allowed by allow_unknown".to_string())
                } else {
                    (
                        Verdict::Block,
                        "publication time unknown; blocked by default (see allow_unknown)".to_string(),
                    )
                }
            },
            Some(ts) => {
                let age_days = age_in_days(now, ts);
                if age_days >= config.min_age_days as i64 {
                    (Verdict::Allow, age_reason_text(age_days, config.min_age_days, true, publication.basis))
                } else {
                    (Verdict::Block, age_reason_text(age_days, config.min_age_days, false, publication.basis))
                }
            },
        }
    };
    let reasons = vec![reason];
    assert(string_views(reasons@) =~= seq![reason@]);
    Decision { candidate: candidate.duplicate(), publication: *publication, verdict, reasons }
}

fn is_upgraded_exec(verdict: Verdict) -> (r: bool)
    ensures
        r == is_upgraded(verdict),
{
    verdict != Verdict::Block
}

/// `name`, operator and version of a dependency, as in `foo>=1.2-3`.
pub fn format_dep(dep: &DepSpec) -> (r: String)
    ensures
        r@ == dep_text(dep@),
{
    let mut s = dep.name.clone();
    match &dep.constraint {
        Some((op, version)) => {
            match op {
                DepOp::Ge => {
                    crate::text::push_char(&mut s, '>');
                    crate::text::push_char(&mut s, '=');
                },
                DepOp::Le => {
                    crate::text::push_char(&mut s, '<');
                    crate::text::push_char(&mut s, '=');
                },
                DepOp::Eq => {
                    crate::text::push_char(&mut s, '=');
                },
                DepOp::Gt => {
                    crate::text::push_char(&mut s, '>');
                },
                DepOp::Lt => {
                    crate::text::push_char(&mut s, '<');
                },
            }
            push_str(&mut s, version.as_str());
            assert(s@ == dep.name@ + crate::db::op_text(*op) + version@);
        },
        None => {},
    }
    s
}

proof fn lemma_decision_index(ds: Seq<DecisionView>, name: Seq<char>)
    ensures
        -1 <= decision_index(ds, name) < ds.len(),
        decision_index(ds, name) >= 0 ==> ds[decision_index(ds, name)].candidate.name@ == name,
    decreases ds.len(),
{
    if ds.len() > 0 && ds[0].candidate.name@ != name {
        lemma_decision_index(ds.drop_first(), name);
    }
}

proof fn lemma_decision_index_is(ds: Seq<DecisionView>, name: Seq<char>, a: int)
    requires
        -1 <= a < ds.len(),
        a >= 0 ==> ds[a].candidate.name@ == name,
        forall|k: int|
            0 <= k < ds.len() && (a == -1 || k < a) ==> #[trigger] ds[k].candidate.name@ != name,
    ensures
        decision_index(ds, name) == a,
    decreases ds.len(),
{
    if ds.len() > 0 {
        if a == 0 {
        } else {
            assert(ds[0].candidate.name@ != name);
            assert forall|k: int|
                0 <= k < ds.len() - 1 && (a == -1 || k < a - 1) implies #[trigger] ds.drop_first()[k].candidate.name@
                != name by {
                assert(ds.drop_first()[k] == ds[k + 1]);
            }
            lemma_decision_index_is(ds.drop_first(), name, if a == -1 {
                -1
            } else {
                a - 1
            });
        }
    }
}

proof fn lemma_decision_index_names(ds: Seq<DecisionView>, es: Seq<DecisionView>, name: Seq<char>)
    requires
        ds.len() == es.len(),
        forall|k: int| 0 <= k < ds.len() ==> #[trigger] ds[k].candidate == es[k].candidate,
    ensures
        decision_index(ds, name) == decision_index(es, name),
    decreases ds.len(),
{
    if ds.len() > 0 {
        assert(ds[0].candidate == es[0].candidate);
        lemma_decision_index_names(ds.drop_first(), es.drop_first(), name);
    }
}

/// Index of the first decision for `name`.
fn index_of(decisions: &Vec<Decision>, name: &str) -> (r: Option<usize>)
    ensures
        match r {
            Some(i) => i == decision_index(decision_views(decisions@), name@) && i
                < decisions@.len(),
            None => decision_index(decision_views(decisions@), name@) == -1,
        },
{
    let ghost ds = decision_views(decisions@);
    let n = decisions.len();
    for i in 0..n
        invariant
            n == decisions@.len() == ds.len(),
            ds == decision_views(decisions@),
            forall|k: int| 0 <= k < i ==> #[trigger] ds[k].candidate.name@ != name@,
    {
        if crate::text::str_eq(decisions[i].candidate.name.as_str(), name) {
            proof {
                lemma_decision_index_is(ds, name@, i as int);
            }
            return Some(i);
        }
    }
    proof {
        lemma_decision_index_is(ds, name@, -1);
    }
    None
}

/// Give decision `i` a new verdict and one more reason.
fn set_verdict(decisions: &mut Vec<Decision>, i: usize, verdict: Verdict, reason: String)
    requires
        i < old(decisions)@.len(),
    ensures
        decision_views(final(decisions)@) == decision_views(old(decisions)@).update(
            i as int,
            with_verdict(old(decisions)@[i as int]@, verdict, reason@),
        ),
        final(decisions)@.len() == old(decisions)@.len(),
{
    let ghost before = decisions@;
    let mut d = decisions.remove(i);
    d.verdict = verdict;
    let ghost rs = d.reasons@;
    d.reasons.push(reason);
    assert(string_views(d.reasons@) =~= string_views(rs).push(reason@));
    decisions.insert(i, d);
    assert(decisions@ =~= before.update(i as int, d));
    assert(decision_views(decisions@) =~= decision_views(before).update(
        i as int,
        with_verdict(before[i as int]@, verdict, reason@),
    ));
}

fn unsatisfied_reason_text(dep: &DepSpec, what: &str) -> (r: String)
    ensures
        r@ == unsatisfied_reason(dep@, what@),
{
    let mut s = String::new();
    push_str(&mut s, "blocked: candidate version requires ");
    let d = format_dep(dep);
    push_str(&mut s, d.as_str());
    push_str(&mut s, ", which no installed package or ");
    push_str(&mut s, what);
    push_str(&mut s, " provides");
    s
}

fn always_block_reason_text(dep: &DepSpec, name: &String) -> (r: String)
    ensures
        r@ == always_block_reason(dep@, name@),
{
    let mut s = String::new();
    push_str(&mut s, "blocked: requires ");
    let d = format_dep(dep);
    push_str(&mut s, d.as_str());
    push_str(&mut s, ", but ");
    push_str(&mut s, name.as_str());
    push_str(&mut s, " is blocked by always_block");
    s
}

fn promote_reason_text(dependent: &String, dep: &DepSpec) -> (r: String)
    ensures
        r@ == promote_reason(dependent@, dep@),
{
    let mut s = String::new();
    push_str(&mut s, "promoted despite age: required by ");
    push_str(&mut s, dependent.as_str());
    push_str(&mut s, " (");
    let d = format_dep(dep);
    push_str(&mut s, d.as_str());
    push_str(&mut s, ")");
    s
}

fn not_allowed_reason_text(dep: &DepSpec, name: &String) -> (r: String)
    ensures
        r@ == not_allowed_reason(dep@, name@),
{
    let mut s = String::new();
    push_str(&mut s, "blocked: requires ");
    let d = format_dep(dep);
    push_str(&mut s, d.as_str());
    push_str(&mut s, ", but ");
    push_str(&mut s, name.as_str());
    push_str(&mut s, " is not allowed by the age policy");
    s
}

fn held_back_reason_text(dep: &DepSpec, name: &String) -> (r: String)
    ensures
        r@ == held_back_reason(dep@, name@),
{
    let mut s = String::new();
    push_str(&mut s, "blocked: requires ");
    let d = format_dep(dep);
    push_str(&mut s, d.as_str());
    push_str(&mut s, ", but ");
    push_str(&mut s, name.as_str());
    push_str(&mut s, " is held back");
    s
}

fn alongside_reason_text(dependency: &String, dep: &DepSpec) -> (r: String)
    ensures
        r@ == alongside_reason(dependency@, dep@),
{
    let mut s = String::new();
    push_str(&mut s, "promoted despite age: upgraded together with its dependency ");
    push_str(&mut s, dependency.as_str());
    push_str(&mut s, " (");
    let d = format_dep(dep);
    push_str(&mut s, d.as_str());
    push_str(&mut s, ")");
    s
}

fn coupled_block_reason_text(dependent: &String, dep: &DepSpec) -> (r: String)
    ensures
        r@ == coupled_block_reason(dependent@, dep@),
{
    let mut s = String::new();
    push_str(&mut s, "blocked: ");
    push_str(&mut s, dependent.as_str());
    push_str(&mut s, " depends on it (");
    let d = format_dep(dep);
    push_str(&mut s, d.as_str());
    push_str(&mut s, ") and is held back");
    s
}

/// Whether decision `i` may still be promoted.
fn is_promotable(decisions: &Vec<Decision>, hard: &Vec<bool>, i: usize) -> (r: bool)
    requires
        i < decisions@.len(),
        hard@.len() == decisions@.len(),
    ensures
        r == promotable(decision_views(decisions@)[i as int], hard@[i as int]),
{
    let d = &decisions[i];
    assert(decision_views(decisions@)[i as int] == d@);
    assert(d@.reasons.len() == d.reasons@.len());
    d.verdict == Verdict::Block && d.reasons.len() == 1 && !hard[i]
}

/// The candidate a requirement's dependency names, if it is one.
fn coupled_index_exec(decisions: &Vec<Decision>, req: &Requirement) -> (r: Option<usize>)
    ensures
        match r {
            Some(i) => i == coupled_index(decision_views(decisions@), req@) && i < decisions@.len(),
            None => coupled_index(decision_views(decisions@), req@) < 0,
        },
{
    match &req.status {
        RequirementStatus::SatisfiedByInstalled { .. } => index_of(decisions, req.dep.name.as_str()),
        RequirementStatus::RequiresCandidate { name } => index_of(decisions, name.as_str()),
        RequirementStatus::Unsatisfied => None,
    }
}

/// Apply one requirement under `dependency-respecting`.
fn respecting_apply(decisions: &mut Vec<Decision>, hard: &Vec<bool>, req: &Requirement) -> (changed: bool)
    requires
        hard@.len() == old(decisions)@.len(),
    ensures
        (decision_views(final(decisions)@), changed) == respecting_step(
            decision_views(old(decisions)@),
            hard@,
            req@,
        ),
        final(decisions)@.len() == old(decisions)@.len(),
{
    let ghost ds = decision_views(decisions@);
    let Some(a) = index_of(decisions, req.dependent.as_str()) else {
        return false;
    };
    if is_upgraded_exec(decisions[a].verdict) {
        match &req.status {
            RequirementStatus::SatisfiedByInstalled { .. } => false,
            RequirementStatus::Unsatisfied => {
                let reason = unsatisfied_reason_text(&req.dep, "upgrade candidate");
                set_verdict(decisions, a, Verdict::Block, reason);
                true
            },
            RequirementStatus::RequiresCandidate { name } => {
                let Some(b) = index_of(decisions, name.as_str()) else {
                    return false;
                };
                if decisions[b].verdict != Verdict::Block {
                    return false;
                }
                if is_promotable(decisions, hard, b) {
                    let reason = promote_reason_text(&req.dependent, &req.dep);
                    set_verdict(decisions, b, Verdict::Promote, reason);
                } else {
                    let reason = if hard[b] {
                        always_block_reason_text(&req.dep, name)
                    } else {
                        held_back_reason_text(&req.dep, name)
                    };
                    set_verdict(decisions, a, Verdict::Block, reason);
                }
                true
            },
        }
    } else {
        let b = match coupled_index_exec(decisions, req) {
            Some(b) => b,
            None => {
                return false;
            },
        };
        if b == a || !is_upgraded_exec(decisions[b].verdict) {
            return false;
        }
        if is_promotable(decisions, hard, a) {
            let dependency = decisions[b].candidate.name.clone();
            assert(dependency@ == ds[b as int].candidate.name@);
            let reason = alongside_reason_text(&dependency, &req.dep);
            set_verdict(decisions, a, Verdict::Promote, reason);
        } else {
            let reason = coupled_block_reason_text(&req.dependent, &req.dep);
            set_verdict(decisions, b, Verdict::Block, reason);
        }
        true
    }
}

/// Apply one requirement under `strict-closure`.
fn strict_apply(decisions: &mut Vec<Decision>, req: &Requirement) -> (changed: bool)
    ensures
        (decision_views(final(decisions)@), changed) == strict_step(
            decision_views(old(decisions)@),
            req@,
        ),
        final(decisions)@.len() == old(decisions)@.len(),
{
    let Some(a) = index_of(decisions, req.dependent.as_str()) else {
        return false;
    };
    if !is_upgraded_exec(decisions[a].verdict) {
        let b = match coupled_index_exec(decisions, req) {
            Some(b) => b,
            None => {
                return false;
            },
        };
        if b == a || !is_upgraded_exec(decisions[b].verdict) {
            return false;
        }
        let reason = coupled_block_reason_text(&req.dependent, &req.dep);
        set_verdict(decisions, b, Verdict::Block, reason);
        return true;
    }
    let block_reason = match &req.status {
        RequirementStatus::SatisfiedByInstalled { .. } => None,
        RequirementStatus::Unsatisfied => Some(
            unsatisfied_reason_text(&req.dep, "allowed candidate"),
        ),
        RequirementStatus::RequiresCandidate { name } => {
            let provider_allowed = match index_of(decisions, name.as_str()) {
                Some(b) => decisions[b].verdict == Verdict::Allow,
                None => false,
            };
            if provider_allowed {
                None
            } else {
                Some(not_allowed_reason_text(&req.dep, name))
            }
        },
    };
    match block_reason {
        Some(reason) => {
            set_verdict(decisions, a, Verdict::Block, reason);
            true
        },
        None => false,
    }
}

/// One pass over all requirements.
fn run_pass(decisions: &mut Vec<Decision>, hard: &Vec<bool>, requirements: &[Requirement], strict: bool) -> (changed: bool)
    requires
        hard@.len() == old(decisions)@.len(),
    ensures
        (decision_views(final(decisions)@), changed) == pass(
            decision_views(old(decisions)@),
            hard@,
            requirement_views(requirements@),
            strict,
        ),
        final(decisions)@.len() == old(decisions)@.len(),
{
    let ghost reqs = requirement_views(requirements@);
    let ghost start = decision_views(decisions@);
    let mut changed = false;
    let n = requirements.len();
    for i in 0..n
        invariant
            n == requirements@.len() == reqs.len(),
            reqs == requirement_views(requirements@),
            hard@.len() == decisions@.len(),
            start == decision_views(old(decisions)@),
            decisions@.len() == old(decisions)@.len(),
            (decision_views(decisions@), changed) == pass(start, hard@, reqs.take(i as int), strict),
    {
        assert(reqs.take(i + 1).drop_last() == reqs.take(i as int));
        assert(reqs.take(i + 1).last() == requirements@[i as int]@);
        let c = if strict {
            strict_apply(decisions, &requirements[i])
        } else {
            respecting_apply(decisions, hard, &requirements[i])
        };
        changed = changed || c;
    }
    assert(reqs.take(n as int) == reqs);
    changed
}

} // verus!

verus! {

// ---------------------------------------------------------------------------
// Fixpoint iteration
// ---------------------------------------------------------------------------

/// Number of decisions that upgrade (allow or promote).
pub open spec fn upgraded_count(ds: Seq<DecisionView>) -> nat
    decreases ds.len(),
{
    if ds.len() == 0 {
        0
    } else {
        upgraded_count(ds.drop_last()) + if is_upgraded(ds.last().verdict) {
            1nat
        } else {
            0nat
        }
    }
}

proof fn lemma_upgraded_count_update(ds: Seq<DecisionView>, i: int, x: DecisionView)
    requires
        0 <= i < ds.len(),
    ensures
        upgraded_count(ds.update(i, x)) + (if is_upgraded(ds[i].verdict) {
            1int
        } else {
            0int
        }) == upgraded_count(ds) + (if is_upgraded(x.verdict) {
            1int
        } else {
            0int
        }),
    decreases ds.len(),
{
    let u = ds.update(i, x);
    if i == ds.len() - 1 {
        assert(u.drop_last() == ds.drop_last());
    } else {
        assert(u.drop_last() == ds.drop_last().update(i, x));
        lemma_upgraded_count_update(ds.drop_last(), i, x);
    }
}

proof fn lemma_step_unchanged(ds: Seq<DecisionView>, hard: Seq<bool>, req: RequirementView, strict: bool)
    ensures
        strict && !strict_step(ds, req).1 ==> strict_step(ds, req).0 == ds,
        !strict && !respecting_step(ds, hard, req).1 ==> respecting_step(ds, hard, req).0 == ds,
{
}

/// A pass that reports no change leaves the decisions as they were.
proof fn lemma_pass_unchanged(ds: Seq<DecisionView>, hard: Seq<bool>, reqs: Seq<RequirementView>, strict: bool)
    ensures
        !pass(ds, hard, reqs, strict).1 ==> pass(ds, hard, reqs, strict).0 == ds,
    decreases reqs.len(),
{
    if reqs.len() > 0 {
        lemma_pass_unchanged(ds, hard, reqs.drop_last(), strict);
        let before = pass(ds, hard, reqs.drop_last(), strict).0;
        lemma_step_unchanged(before, hard, reqs.last(), strict);
    }
}

/// What one step can do: nothing, or give one decision a new verdict and a
/// reason. A promotion only ever reaches a promotable decision, a block only
/// an upgraded one, and `strict-closure` only blocks.
pub open spec fn step_shape(
    ds: Seq<DecisionView>,
    hard: Seq<bool>,
    after: Seq<DecisionView>,
    changed: bool,
    strict: bool,
) -> bool {
    ||| (!changed && after == ds)
    ||| (changed && exists|x: int, v: Verdict, r: Seq<char>|
        #![trigger ds.update(x, with_verdict(ds[x], v, r))]
        0 <= x < ds.len() && after == ds.update(x, with_verdict(ds[x], v, r)) && (strict ==> v
            == Verdict::Block) && (v == Verdict::Block ==> is_upgraded(ds[x].verdict)) && (v
            != Verdict::Block ==> v == Verdict::Promote && promotable(ds[x], hard[x])))
}

proof fn lemma_step_shape(ds: Seq<DecisionView>, hard: Seq<bool>, req: RequirementView, strict: bool)
    ensures
        strict ==> step_shape(ds, hard, strict_step(ds, req).0, strict_step(ds, req).1, true),
        !strict ==> step_shape(ds, hard, respecting_step(ds, hard, req).0, respecting_step(ds, hard, req).1, false),
{
    lemma_decision_index(ds, req.dependent);
    let a = decision_index(ds, req.dependent);
    match req.status {
        StatusView::RequiresCandidate { name } => {
            lemma_decision_index(ds, name);
        },
        StatusView::SatisfiedByInstalled { .. } => {
            lemma_decision_index(ds, req.dep.name);
        },
        _ => {},
    }
    let b = coupled_index(ds, req);
    if strict {
        let (after, c) = strict_step(ds, req);
        if c {
            if is_upgraded(ds[a].verdict) {
                let r = match req.status {
                    StatusView::SatisfiedByInstalled { .. } => seq![],
                    StatusView::Unsatisfied => unsatisfied_reason(req.dep, "allowed candidate"@),
                    StatusView::RequiresCandidate { name } => not_allowed_reason(req.dep, name),
                };
                assert(after == ds.update(a, with_verdict(ds[a], Verdict::Block, r)));
            } else {
                let r = coupled_block_reason(req.dependent, req.dep);
                assert(after == ds.update(b, with_verdict(ds[b], Verdict::Block, r)));
            }
        }
    } else {
        let (after, c) = respecting_step(ds, hard, req);
        if c {
            if is_upgraded(ds[a].verdict) {
                match req.status {
                    StatusView::Unsatisfied => {
                        let r = unsatisfied_reason(req.dep, "upgrade candidate"@);
                        assert(after == ds.update(a, with_verdict(ds[a], Verdict::Block, r)));
                    },
                    StatusView::RequiresCandidate { name } => {
                        let bb = decision_index(ds, name);
                        if promotable(ds[bb], hard[bb]) {
                            let r = promote_reason(req.dependent, req.dep);
                            assert(after == ds.update(bb, with_verdict(ds[bb], Verdict::Promote, r)));
                        } else {
                            let r = if hard[bb] {
                                always_block_reason(req.dep, name)
                            } else {
                                held_back_reason(req.dep, name)
                            };
                            assert(after == ds.update(a, with_verdict(ds[a], Verdict::Block, r)));
                        }
                    },
                    _ => {},
                }
            } else if promotable(ds[a], hard[a]) {
                let r = alongside_reason(ds[b].candidate.name@, req.dep);
                assert(after == ds.update(a, with_verdict(ds[a], Verdict::Promote, r)));
            } else {
                let r = coupled_block_reason(req.dependent, req.dep);
                assert(after == ds.update(b, with_verdict(ds[b], Verdict::Block, r)));
            }
        }
    }
}

/// Under `strict-closure`, every change blocks one more upgrading decision.
proof fn lemma_strict_pass_decreases(ds: Seq<DecisionView>, hard: Seq<bool>, reqs: Seq<RequirementView>)
    ensures
        upgraded_count(pass(ds, hard, reqs, true).0) <= upgraded_count(ds),
        pass(ds, hard, reqs, true).1 ==> upgraded_count(pass(ds, hard, reqs, true).0)
            < upgraded_count(ds),
    decreases reqs.len(),
{
    if reqs.len() > 0 {
        lemma_strict_pass_decreases(ds, hard, reqs.drop_last());
        let before = pass(ds, hard, reqs.drop_last(), true).0;
        let req = reqs.last();
        lemma_step_shape(before, hard, req, true);
        let (after, c) = strict_step(before, req);
        if c {
            let (x, v, r) = choose|x: int, v: Verdict, r: Seq<char>|
                0 <= x < before.len() && after == before.update(x, with_verdict(before[x], v, r))
                    && (true ==> v == Verdict::Block) && (v == Verdict::Block ==> is_upgraded(
                    before[x].verdict,
                )) && (v != Verdict::Block ==> v == Verdict::Promote && promotable(before[x], hard[x]));
            lemma_upgraded_count_update(before, x, with_verdict(before[x], v, r));
        }
    }
}

/// How far a decision can still move: a promotable block may be promoted
/// and then blocked again, an upgraded one may be blocked (and, with no
/// reason yet, then promoted once more), and a block that is not
/// promotable stays as it is.
pub open spec fn rank(d: DecisionView, hard: bool) -> nat {
    if promotable(d, hard) {
        2
    } else if is_upgraded(d.verdict) {
        if d.reasons.len() == 0 {
            3
        } else {
            1
        }
    } else {
        0
    }
}

/// The sum of the ranks: every change of `dependency-respecting` lowers it.
pub open spec fn total_rank(ds: Seq<DecisionView>, hard: Seq<bool>) -> nat
    decreases ds.len(),
{
    if ds.len() == 0 {
        0
    } else {
        total_rank(ds.drop_last(), hard) + rank(ds.last(), hard[ds.len() - 1])
    }
}

proof fn lemma_total_rank_update(ds: Seq<DecisionView>, hard: Seq<bool>, i: int, x: DecisionView)
    requires
        0 <= i < ds.len(),
    ensures
        total_rank(ds.update(i, x), hard) + rank(ds[i], hard[i]) == total_rank(ds, hard) + rank(
            x,
            hard[i],
        ),
    decreases ds.len(),
{
    let u = ds.update(i, x);
    if i == ds.len() - 1 {
        assert(u.drop_last() == ds.drop_last());
    } else {
        assert(u.drop_last() == ds.drop_last().update(i, x));
        lemma_total_rank_update(ds.drop_last(), hard, i, x);
    }
}

/// Under `dependency-respecting`, every change lowers the total rank, so the
/// iteration always settles.
proof fn lemma_respecting_pass_decreases(ds: Seq<DecisionView>, hard: Seq<bool>, reqs: Seq<RequirementView>)
    ensures
        total_rank(pass(ds, hard, reqs, false).0, hard) <= total_rank(ds, hard),
        pass(ds, hard, reqs, false).1 ==> total_rank(pass(ds, hard, reqs, false).0, hard)
            < total_rank(ds, hard),
    decreases reqs.len(),
{
    if reqs.len() > 0 {
        lemma_respecting_pass_decreases(ds, hard, reqs.drop_last());
        let before = pass(ds, hard, reqs.drop_last(), false).0;
        let req = reqs.last();
        lemma_step_shape(before, hard, req, false);
        let (after, c) = respecting_step(before, hard, req);
        if c {
            let (x, v, r) = choose|x: int, v: Verdict, r: Seq<char>|
                0 <= x < before.len() && after == before.update(x, with_verdict(before[x], v, r))
                    && (false ==> v == Verdict::Block) && (v == Verdict::Block ==> is_upgraded(
                    before[x].verdict,
                )) && (v != Verdict::Block ==> v == Verdict::Promote && promotable(before[x], hard[x]));
            let y = with_verdict(before[x], v, r);
            assert(y.reasons.len() == before[x].reasons.len() + 1);
            assert(rank(y, hard[x]) < rank(before[x], hard[x]));
            lemma_total_rank_update(before, hard, x, y);
        }
    }
}

/// Which decisions are blocked by configuration (`always_block`).
fn hard_blocked_flags(decisions: &Vec<Decision>) -> (r: Vec<bool>)
    ensures
        r@ == hard_flags(decision_views(decisions@)),
{
    let ghost ds = decision_views(decisions@);
    let needle = chars_of("always_block");
    let mut flags: Vec<bool> = Vec::new();
    let n = decisions.len();
    for i in 0..n
        invariant
            n == decisions@.len() == ds.len(),
            ds == decision_views(decisions@),
            needle@ == "always_block"@,
            flags@ == hard_flags(ds).take(i as int),
    {
        let reasons = &decisions[i].reasons;
        let ghost rs = ds[i as int].reasons;
        assert(rs == string_views(reasons@));
        let mut found = false;
        let m = reasons.len();
        for k in 0..m
            invariant
                m == reasons@.len() == rs.len(),
                rs == string_views(reasons@),
                needle@ == "always_block"@,
                found == exists|j: int| 0 <= j < k && contains(#[trigger] rs[j], "always_block"@),
        {
            let text = chars_of(reasons[k].as_str());
            assert(text@ == rs[k as int]);
            let hit = contains_exec(&text, &needle);
            proof {
                if !hit {
                    assert forall|j: int| 0 <= j < k + 1 && contains(#[trigger] rs[j], "always_block"@) implies j < k by {
                        if j == k {
                        }
                    }
                }
            }
            if hit {
                found = true;
            }
        }
        flags.push(found);
        assert(hard_flags(ds).take(i + 1) =~= hard_flags(ds).take(i as int).push(found));
    }
    assert(hard_flags(ds).take(n as int) =~= hard_flags(ds));
    flags
}

/// `dependency-respecting`: promote required younger dependencies, promote a
/// held-back dependent alongside its upgraded dependency (or block that
/// dependency when the dependent may not move); block dependents whose
/// requirements cannot be met. Every change lowers the total rank, so the
/// iteration always settles.
fn apply_dependency_respecting(decisions: &mut Vec<Decision>, requirements: &[Requirement])
    ensures
        fixpoint_of(
            decision_views(old(decisions)@),
            hard_flags(decision_views(old(decisions)@)),
            requirement_views(requirements@),
            false,
            decision_views(final(decisions)@),
        ),
{
    // `always_block` packages must never be promoted; track which blocks are
    // age-based (promotable) vs. configuration-based (not).
    let hard = hard_blocked_flags(decisions);
    let ghost ds0 = decision_views(decisions@);
    let ghost reqs = requirement_views(requirements@);
    let ghost mut k: nat = 0;
    loop
        invariant
            ds0 == decision_views(old(decisions)@),
            hard@ == hard_flags(ds0),
            reqs == requirement_views(requirements@),
            hard@.len() == decisions@.len(),
            decision_views(decisions@) == passes(ds0, hard@, reqs, false, k),
            forall|j: nat| j < k ==> !settled_at(ds0, hard@, reqs, false, j),
        decreases total_rank(decision_views(decisions@), hard@),
    {
        let ghost current = decision_views(decisions@);
        let changed = run_pass(decisions, &hard, requirements, false);
        proof {
            lemma_respecting_pass_decreases(current, hard@, reqs);
        }
        if !changed {
            proof {
                lemma_pass_unchanged(current, hard@, reqs, false);
            }
            return;
        }
        proof {
            assert(passes(ds0, hard@, reqs, false, k + 1) == pass(current, hard@, reqs, false).0);
            assert(!settled_at(ds0, hard@, reqs, false, k));
            assert forall|j: nat| j < k + 1 implies !settled_at(ds0, hard@, reqs, false, j) by {
            }
            k = k + 1;
        }
    }
}

/// `strict-closure`: never promote; block candidates whose requirements are
/// not met by installed packages or age-allowed candidates, transitively.
fn apply_strict_closure(decisions: &mut Vec<Decision>, requirements: &[Requirement])
    ensures
        fixpoint_of(
            decision_views(old(decisions)@),
            hard_flags(decision_views(old(decisions)@)),
            requirement_views(requirements@),
            true,
            decision_views(final(decisions)@),
        ),
{
    let hard = hard_blocked_flags(decisions);
    let ghost ds0 = decision_views(decisions@);
    let ghost reqs = requirement_views(requirements@);
    let ghost mut k: nat = 0;
    loop
        invariant
            ds0 == decision_views(old(decisions)@),
            hard@ == hard_flags(ds0),
            reqs == requirement_views(requirements@),
            hard@.len() == decisions@.len(),
            decision_views(decisions@) == passes(ds0, hard@, reqs, true, k),
            forall|j: nat| j < k ==> !settled_at(ds0, hard@, reqs, true, j),
        decreases upgraded_count(decision_views(decisions@)),
    {
        let ghost current = decision_views(decisions@);
        let changed = run_pass(decisions, &hard, requirements, true);
        proof {
            lemma_strict_pass_decreases(current, hard@, reqs);
        }
        if !changed {
            proof {
                lemma_pass_unchanged(current, hard@, reqs, true);
            }
            return;
        }
        proof {
            assert(passes(ds0, hard@, reqs, true, k + 1) == pass(current, hard@, reqs, true).0);
            assert(!settled_at(ds0, hard@, reqs, true, k));
            assert forall|j: nat| j < k + 1 implies !settled_at(ds0, hard@, reqs, true, j) by {
            }
            k = k + 1;
        }
    }
}

/// The phase-1 decisions, in discovery order.
fn age_decisions(
    candidates: &[UpgradeCandidate],
    publications: &[(String, Publication)],
    config: &Config,
    now: i64,
) -> (r: Vec<Decision>)
    requires
        ages_fit(candidates@, publications@, *config, now),
    ensures
        decision_views(r@) == initial_decisions(candidates@, publications@, *config, now),
{
    let ghost init = initial_decisions(candidates@, publications@, *config, now);
    let mut decisions: Vec<Decision> = Vec::new();
    let n = candidates.len();
    for i in 0..n
        invariant
            n == candidates@.len() == init.len(),
            init == initial_decisions(candidates@, publications@, *config, now),
            ages_fit(candidates@, publications@, *config, now),
            decision_views(decisions@) == init.take(i as int),
    {
        let c = &candidates[i];
        let publication = lookup_publication(publications, &c.name);
        assert(age_decides(*c, *config) ==> match publication_for(publications@, candidates@[i as int].name@).published_at {
            Some(ts) => age_fits(now, ts),
            None => true,
        });
        let d = age_verdict(c, &publication, config, now);
        let ghost before = decisions@;
        decisions.push(d);
        assert(decision_views(decisions@) =~= decision_views(before).push(d@));
        assert(init.take(i + 1) =~= init.take(i as int).push(init[i as int]));
    }
    assert(init.take(n as int) =~= init);
    decisions
}

/// Evaluate all candidates into final decisions, in discovery order.
///
/// `publications` maps candidate names to publication info (a later entry
/// for a name replaces an earlier one); candidates without an entry count
/// as unknown.
pub fn evaluate(
    candidates: &[UpgradeCandidate],
    publications: &[(String, Publication)],
    requirements: &[Requirement],
    config: &Config,
    now: i64,
) -> (r: Vec<Decision>)
    requires
        ages_fit(candidates@, publications@, *config, now),
    ensures
        evaluation(
            candidates@,
            publications@,
            requirement_views(requirements@),
            *config,
            now,
            decision_views(r@),
        ),
{
    let mut decisions = age_decisions(candidates, publications, config, now);
    match config.dependency_policy {
        DependencyPolicy::DependencyRespecting => {
            apply_dependency_respecting(&mut decisions, requirements)
        },
        DependencyPolicy::StrictClosure => apply_strict_closure(&mut decisions, requirements),
    }
    decisions
}

} // verus!

verus! {

// ---------------------------------------------------------------------------
// Laws
// ---------------------------------------------------------------------------

/// A requirement is honoured by `ds`: if its dependent upgrades, the
/// requirement is not unsatisfiable, and a candidate it needs upgrades too
/// (under `strict-closure`: is allowed by age); if its dependent is held
/// back, the candidate its dependency names is held back too.
pub open spec fn requirement_honoured(ds: Seq<DecisionView>, req: RequirementView, strict: bool) -> bool {
    let a = decision_index(ds, req.dependent);
    &&& a >= 0 && is_upgraded(ds[a].verdict) ==> match req.status {
        StatusView::SatisfiedByInstalled { .. } => true,
        StatusView::Unsatisfied => false,
        StatusView::RequiresCandidate { name } => {
            let b = decision_index(ds, name);
            if strict {
                b >= 0 && ds[b].verdict == Verdict::Allow
            } else {
                b < 0 || is_upgraded(ds[b].verdict)
            }
        },
    }
    &&& a >= 0 && !is_upgraded(ds[a].verdict) ==> {
        let b = coupled_index(ds, req);
        b < 0 || b == a || !is_upgraded(ds[b].verdict)
    }
}

proof fn lemma_unchanged_pass_steps(
    ds: Seq<DecisionView>,
    hard: Seq<bool>,
    reqs: Seq<RequirementView>,
    strict: bool,
)
    requires
        !pass(ds, hard, reqs, strict).1,
    ensures
        forall|i: int|
            0 <= i < reqs.len() ==> !(if strict {
                strict_step(ds, #[trigger] reqs[i]).1
            } else {
                respecting_step(ds, hard, reqs[i]).1
            }),
    decreases reqs.len(),
{
    if reqs.len() > 0 {
        lemma_unchanged_pass_steps(ds, hard, reqs.drop_last(), strict);
        lemma_pass_unchanged(ds, hard, reqs.drop_last(), strict);
        assert forall|i: int| 0 <= i < reqs.len() implies !(if strict {
            strict_step(ds, #[trigger] reqs[i]).1
        } else {
            respecting_step(ds, hard, reqs[i]).1
        }) by {
            if i < reqs.len() - 1 {
                assert(reqs[i] == reqs.drop_last()[i]);
            }
        }
    }
}

/// No partial upgrades: every upgrading candidate has each of its
/// requirements met by the installed system or by another upgrading (under
/// `strict-closure`: age-allowed) candidate; and coupled candidates move
/// together, so that a dependent held back keeps the candidate named by its
/// dependency back as well.
pub proof fn lemma_evaluation_honours_requirements(
    cs: Seq<UpgradeCandidate>,
    pubs: Seq<(String, Publication)>,
    reqs: Seq<RequirementView>,
    config: Config,
    now: i64,
    result: Seq<DecisionView>,
)
    requires
        evaluation(cs, pubs, reqs, config, now, result),
    ensures
        forall|i: int|
            0 <= i < reqs.len() ==> requirement_honoured(
                result,
                #[trigger] reqs[i],
                config.dependency_policy == DependencyPolicy::StrictClosure,
            ),
{
    let ds = initial_decisions(cs, pubs, config, now);
    let hard = hard_flags(ds);
    let strict = config.dependency_policy == DependencyPolicy::StrictClosure;
    let k = choose|k: nat|
        {
            &&& settled_at(ds, hard, reqs, strict, k)
            &&& forall|j: nat| j < k ==> !settled_at(ds, hard, reqs, strict, j)
            &&& result == passes(ds, hard, reqs, strict, k)
        };
    lemma_unchanged_pass_steps(result, hard, reqs, strict);
    assert forall|i: int| 0 <= i < reqs.len() implies requirement_honoured(
        result,
        #[trigger] reqs[i],
        strict,
    ) by {
        let req = reqs[i];
        lemma_decision_index(result, req.dependent);
        match req.status {
            StatusView::RequiresCandidate { name } => {
                lemma_decision_index(result, name);
            },
            StatusView::SatisfiedByInstalled { .. } => {
                lemma_decision_index(result, req.dep.name);
            },
            _ => {},
        }
        if strict {
            assert(!strict_step(result, req).1);
        } else {
            assert(!respecting_step(result, hard, req).1);
        }
    }
}

/// `len` of `passes` keeps the number of decisions.
proof fn lemma_pass_len(ds: Seq<DecisionView>, hard: Seq<bool>, reqs: Seq<RequirementView>, strict: bool)
    ensures
        pass(ds, hard, reqs, strict).0.len() == ds.len(),
    decreases reqs.len(),
{
    if reqs.len() > 0 {
        lemma_pass_len(ds, hard, reqs.drop_last(), strict);
        let before = pass(ds, hard, reqs.drop_last(), strict).0;
        lemma_step_shape(before, hard, reqs.last(), strict);
    }
}

/// Decisions marked in `keep` (all blocked by configuration) stay blocked.
proof fn lemma_pass_keeps_blocks(
    ds: Seq<DecisionView>,
    hard: Seq<bool>,
    reqs: Seq<RequirementView>,
    strict: bool,
    keep: Seq<bool>,
)
    requires
        hard.len() == ds.len(),
        keep.len() == ds.len(),
        forall|i: int| 0 <= i < ds.len() && #[trigger] keep[i] ==> hard[i] && ds[i].verdict == Verdict::Block,
    ensures
        forall|i: int|
            0 <= i < ds.len() && #[trigger] keep[i] ==> pass(ds, hard, reqs, strict).0[i].verdict
                == Verdict::Block,
    decreases reqs.len(),
{
    if reqs.len() > 0 {
        lemma_pass_keeps_blocks(ds, hard, reqs.drop_last(), strict, keep);
        lemma_pass_len(ds, hard, reqs.drop_last(), strict);
        let before = pass(ds, hard, reqs.drop_last(), strict).0;
        let req = reqs.last();
        lemma_step_shape(before, hard, req, strict);
        let (after, c) = if strict {
            strict_step(before, req)
        } else {
            respecting_step(before, hard, req)
        };
        if c {
            let (x, v, r) = choose|x: int, v: Verdict, r: Seq<char>|
                0 <= x < before.len() && after == before.update(x, with_verdict(before[x], v, r))
                    && (strict ==> v == Verdict::Block) && (v == Verdict::Block ==> is_upgraded(
                    before[x].verdict,
                )) && (v != Verdict::Block ==> v == Verdict::Promote && promotable(before[x], hard[x]));
            assert forall|i: int|
                0 <= i < ds.len() && #[trigger] keep[i] implies after[i].verdict == Verdict::Block by {
                if i == x {
                    assert(before[i].verdict == Verdict::Block);
                }
            }
        }
    }
}

proof fn lemma_passes_keep_blocks(
    ds: Seq<DecisionView>,
    hard: Seq<bool>,
    reqs: Seq<RequirementView>,
    strict: bool,
    keep: Seq<bool>,
    k: nat,
)
    requires
        hard.len() == ds.len(),
        keep.len() == ds.len(),
        forall|i: int| 0 <= i < ds.len() && #[trigger] keep[i] ==> hard[i] && ds[i].verdict == Verdict::Block,
    ensures
        passes(ds, hard, reqs, strict, k).len() == ds.len(),
        forall|i: int|
            0 <= i < ds.len() && #[trigger] keep[i] ==> passes(ds, hard, reqs, strict, k)[i].verdict
                == Verdict::Block,
    decreases k,
{
    if k > 0 {
        lemma_passes_keep_blocks(ds, hard, reqs, strict, keep, (k - 1) as nat);
        let p = passes(ds, hard, reqs, strict, (k - 1) as nat);
        lemma_pass_len(p, hard, reqs, strict);
        lemma_pass_keeps_blocks(p, hard, reqs, strict, keep);
    }
}

/// `always_block` wins: a candidate on the block list is never upgraded,
/// neither by age nor by promotion as a dependency.
pub proof fn lemma_always_block_is_final(
    cs: Seq<UpgradeCandidate>,
    pubs: Seq<(String, Publication)>,
    reqs: Seq<RequirementView>,
    config: Config,
    now: i64,
    result: Seq<DecisionView>,
)
    requires
        evaluation(cs, pubs, reqs, config, now, result),
    ensures
        result.len() == cs.len(),
        forall|i: int|
            0 <= i < cs.len() && listed(config.always_block@, #[trigger] cs[i].name@)
                ==> result[i].verdict == Verdict::Block,
{
    let ds = initial_decisions(cs, pubs, config, now);
    let hard = hard_flags(ds);
    let strict = config.dependency_policy == DependencyPolicy::StrictClosure;
    let k = choose|k: nat|
        {
            &&& settled_at(ds, hard, reqs, strict, k)
            &&& forall|j: nat| j < k ==> !settled_at(ds, hard, reqs, strict, j)
            &&& result == passes(ds, hard, reqs, strict, k)
        };
    let keep = Seq::new(cs.len(), |i: int| listed(config.always_block@, cs[i].name@));
    reveal_strlit("matched always_block in configuration");
    reveal_strlit("always_block");
    assert forall|i: int| 0 <= i < ds.len() && #[trigger] keep[i] implies hard[i]
        && ds[i].verdict == Verdict::Block by {
        let r = ds[i].reasons[0];
        assert(r == "matched always_block in configuration"@);
        assert(r.subrange(8, 20) =~= "always_block"@);
        assert(occurs_at(r, "always_block"@, 8));
        assert(contains(ds[i].reasons[0], "always_block"@));
    }
    lemma_passes_keep_blocks(ds, hard, reqs, strict, keep, k);
    assert forall|i: int|
        0 <= i < cs.len() && listed(config.always_block@, #[trigger] cs[i].name@)
            implies result[i].verdict == Verdict::Block by {
        assert(keep[i]);
    }
}

/// `new` is `old` with reasons only added: the same candidates and
/// publications in the same order, and each old reason list a prefix of the
/// new one.
pub open spec fn only_adds_reasons(old: Seq<DecisionView>, new: Seq<DecisionView>) -> bool {
    &&& new.len() == old.len()
    &&& forall|i: int|
        0 <= i < old.len() ==> {
            &&& (#[trigger] new[i]).candidate == old[i].candidate
            &&& new[i].publication == old[i].publication
            &&& old[i].reasons.len() <= new[i].reasons.len()
            &&& new[i].reasons.take(old[i].reasons.len() as int) == old[i].reasons
        }
}

proof fn lemma_only_adds_reasons_trans(a: Seq<DecisionView>, b: Seq<DecisionView>, c: Seq<DecisionView>)
    requires
        only_adds_reasons(a, b),
        only_adds_reasons(b, c),
    ensures
        only_adds_reasons(a, c),
{
    assert forall|i: int| 0 <= i < a.len() implies c[i].reasons.take(a[i].reasons.len() as int)
        == a[i].reasons by {
        assert(b[i].reasons.take(a[i].reasons.len() as int) == a[i].reasons);
        assert(c[i].reasons.take(b[i].reasons.len() as int) == b[i].reasons);
        assert(c[i].reasons.take(a[i].reasons.len() as int) =~= c[i].reasons.take(
            b[i].reasons.len() as int,
        ).take(a[i].reasons.len() as int));
    }
}

proof fn lemma_with_verdict_adds(ds: Seq<DecisionView>, a: int, v: Verdict, reason: Seq<char>)
    requires
        0 <= a < ds.len(),
    ensures
        only_adds_reasons(ds, ds.update(a, with_verdict(ds[a], v, reason))),
{
    let new = ds.update(a, with_verdict(ds[a], v, reason));
    assert forall|i: int| 0 <= i < ds.len() implies new[i].reasons.take(ds[i].reasons.len() as int)
        == ds[i].reasons by {
        if i == a {
            assert(ds[a].reasons.push(reason).take(ds[a].reasons.len() as int) =~= ds[a].reasons);
        } else {
            assert(ds[i].reasons.take(ds[i].reasons.len() as int) =~= ds[i].reasons);
        }
    }
}

proof fn lemma_only_adds_reasons_refl(ds: Seq<DecisionView>)
    ensures
        only_adds_reasons(ds, ds),
{
    assert forall|i: int| 0 <= i < ds.len() implies ds[i].reasons.take(ds[i].reasons.len() as int)
        == ds[i].reasons by {
        assert(ds[i].reasons.take(ds[i].reasons.len() as int) =~= ds[i].reasons);
    }
}

proof fn lemma_pass_adds_reasons(
    ds: Seq<DecisionView>,
    hard: Seq<bool>,
    reqs: Seq<RequirementView>,
    strict: bool,
)
    ensures
        only_adds_reasons(ds, pass(ds, hard, reqs, strict).0),
    decreases reqs.len(),
{
    if reqs.len() == 0 {
        lemma_only_adds_reasons_refl(ds);
    } else {
        lemma_pass_adds_reasons(ds, hard, reqs.drop_last(), strict);
        let before = pass(ds, hard, reqs.drop_last(), strict).0;
        let req = reqs.last();
        lemma_only_adds_reasons_refl(before);
        lemma_step_shape(before, hard, req, strict);
        let (after, c) = if strict {
            strict_step(before, req)
        } else {
            respecting_step(before, hard, req)
        };
        if c {
            let (x, v, r) = choose|x: int, v: Verdict, r: Seq<char>|
                0 <= x < before.len() && after == before.update(x, with_verdict(before[x], v, r))
                    && (strict ==> v == Verdict::Block) && (v == Verdict::Block ==> is_upgraded(
                    before[x].verdict,
                )) && (v != Verdict::Block ==> v == Verdict::Promote && promotable(before[x], hard[x]));
            lemma_with_verdict_adds(before, x, v, r);
        }
        let after = pass(ds, hard, reqs, strict).0;
        lemma_only_adds_reasons_trans(ds, before, after);
    }
}

proof fn lemma_passes_add_reasons(
    ds: Seq<DecisionView>,
    hard: Seq<bool>,
    reqs: Seq<RequirementView>,
    strict: bool,
    k: nat,
)
    ensures
        only_adds_reasons(ds, passes(ds, hard, reqs, strict, k)),
    decreases k,
{
    if k == 0 {
        lemma_only_adds_reasons_refl(ds);
    } else {
        lemma_passes_add_reasons(ds, hard, reqs, strict, (k - 1) as nat);
        let p = passes(ds, hard, reqs, strict, (k - 1) as nat);
        lemma_pass_adds_reasons(p, hard, reqs, strict);
        lemma_only_adds_reasons_trans(ds, p, passes(ds, hard, reqs, strict, k));
    }
}

/// Every verdict is explained: the final decisions follow discovery order,
/// one per candidate, each with its candidate's publication, and each keeps
/// the reason the age check gave as its first reason; the dependency phase
/// only adds reasons.
pub proof fn lemma_every_verdict_has_a_reason(
    cs: Seq<UpgradeCandidate>,
    pubs: Seq<(String, Publication)>,
    reqs: Seq<RequirementView>,
    config: Config,
    now: i64,
    result: Seq<DecisionView>,
)
    requires
        evaluation(cs, pubs, reqs, config, now, result),
    ensures
        result.len() == cs.len(),
        forall|i: int|
            0 <= i < cs.len() ==> {
                &&& (#[trigger] result[i]).candidate == cs[i]
                &&& result[i].publication == publication_for(pubs, cs[i].name@)
                &&& result[i].reasons.len() >= 1
                &&& result[i].reasons[0] == age_outcome(
                    cs[i],
                    publication_for(pubs, cs[i].name@),
                    config,
                    now,
                ).1
            },
{
    let ds = initial_decisions(cs, pubs, config, now);
    let hard = hard_flags(ds);
    let strict = config.dependency_policy == DependencyPolicy::StrictClosure;
    let k = choose|k: nat|
        {
            &&& settled_at(ds, hard, reqs, strict, k)
            &&& forall|j: nat| j < k ==> !settled_at(ds, hard, reqs, strict, j)
            &&& result == passes(ds, hard, reqs, strict, k)
        };
    lemma_passes_add_reasons(ds, hard, reqs, strict, k);
    assert forall|i: int| 0 <= i < cs.len() implies {
        &&& (#[trigger] result[i]).candidate == cs[i]
        &&& result[i].publication == publication_for(pubs, cs[i].name@)
        &&& result[i].reasons.len() >= 1
        &&& result[i].reasons[0] == age_outcome(
            cs[i],
            publication_for(pubs, cs[i].name@),
            config,
            now,
        ).1
    } by {
        assert(ds[i].reasons.len() == 1);
        assert(result[i].reasons.take(1) == ds[i].reasons);
        assert(result[i].reasons[0] == result[i].reasons.take(1)[0]);
    }
}

/// `new` is `old` with some verdicts turned into blocks.
pub open spec fn only_adds_blocks(old: Seq<DecisionView>, new: Seq<DecisionView>) -> bool {
    &&& new.len() == old.len()
    &&& forall|i: int|
        0 <= i < old.len() ==> (#[trigger] new[i]).verdict == old[i].verdict || new[i].verdict
            == Verdict::Block
}

proof fn lemma_strict_pass_only_blocks(ds: Seq<DecisionView>, hard: Seq<bool>, reqs: Seq<RequirementView>)
    ensures
        only_adds_blocks(ds, pass(ds, hard, reqs, true).0),
    decreases reqs.len(),
{
    if reqs.len() > 0 {
        lemma_strict_pass_only_blocks(ds, hard, reqs.drop_last());
        let before = pass(ds, hard, reqs.drop_last(), true).0;
        let req = reqs.last();
        lemma_step_shape(before, hard, req, true);
        let after = pass(ds, hard, reqs, true).0;
        assert forall|i: int| 0 <= i < ds.len() implies (#[trigger] after[i]).verdict
            == ds[i].verdict || after[i].verdict == Verdict::Block by {
            assert(after[i].verdict == before[i].verdict || after[i].verdict == Verdict::Block);
        }
    }
}

proof fn lemma_strict_passes_only_block(
    ds: Seq<DecisionView>,
    hard: Seq<bool>,
    reqs: Seq<RequirementView>,
    k: nat,
)
    ensures
        only_adds_blocks(ds, passes(ds, hard, reqs, true, k)),
    decreases k,
{
    if k > 0 {
        lemma_strict_passes_only_block(ds, hard, reqs, (k - 1) as nat);
        let p = passes(ds, hard, reqs, true, (k - 1) as nat);
        lemma_strict_pass_only_blocks(p, hard, reqs);
        let q = passes(ds, hard, reqs, true, k);
        assert forall|i: int| 0 <= i < ds.len() implies (#[trigger] q[i]).verdict == ds[i].verdict
            || q[i].verdict == Verdict::Block by {
            assert(q[i].verdict == p[i].verdict || q[i].verdict == Verdict::Block);
            assert(p[i].verdict == ds[i].verdict || p[i].verdict == Verdict::Block);
        }
    }
}

/// `strict-closure` never promotes: every candidate it lets through was
/// allowed by the age check itself, and nothing is promoted.
pub proof fn lemma_strict_closure_only_blocks(
    cs: Seq<UpgradeCandidate>,
    pubs: Seq<(String, Publication)>,
    reqs: Seq<RequirementView>,
    config: Config,
    now: i64,
    result: Seq<DecisionView>,
)
    requires
        evaluation(cs, pubs, reqs, config, now, result),
        config.dependency_policy == DependencyPolicy::StrictClosure,
    ensures
        result.len() == cs.len(),
        forall|i: int|
            0 <= i < cs.len() ==> (#[trigger] result[i]).verdict != Verdict::Promote && (
            result[i].verdict == Verdict::Allow ==> age_outcome(
                cs[i],
                publication_for(pubs, cs[i].name@),
                config,
                now,
            ).0 == Verdict::Allow),
{
    let ds = initial_decisions(cs, pubs, config, now);
    let hard = hard_flags(ds);
    let k = choose|k: nat|
        {
            &&& settled_at(ds, hard, reqs, true, k)
            &&& forall|j: nat| j < k ==> !settled_at(ds, hard, reqs, true, j)
            &&& result == passes(ds, hard, reqs, true, k)
        };
    lemma_strict_passes_only_block(ds, hard, reqs, k);
    assert forall|i: int| 0 <= i < cs.len() implies (#[trigger] result[i]).verdict
        != Verdict::Promote && (result[i].verdict == Verdict::Allow ==> age_outcome(
        cs[i],
        publication_for(pubs, cs[i].name@),
        config,
        now,
    ).0 == Verdict::Allow) by {
        assert(result[i].verdict == ds[i].verdict || result[i].verdict == Verdict::Block);
    }
}

/// The age gate: with no dependency requirements in play, a candidate on
/// neither list is allowed exactly when its publication is at least
/// `min_age_days` whole days old, and blocked otherwise; one whose
/// publication time is unknown is blocked unless `allow_unknown` is set.
/// `always_allow` lets a candidate through regardless of age, and
/// `always_block` stops it regardless of age.
pub proof fn lemma_age_gate(
    cs: Seq<UpgradeCandidate>,
    pubs: Seq<(String, Publication)>,
    reqs: Seq<RequirementView>,
    config: Config,
    now: i64,
    result: Seq<DecisionView>,
)
    requires
        evaluation(cs, pubs, reqs, config, now, result),
        reqs.len() == 0,
    ensures
        result.len() == cs.len(),
        forall|i: int|
            0 <= i < cs.len() ==> {
                let blocked = listed(config.always_block@, cs[i].name@);
                let allowed = listed(config.always_allow@, cs[i].name@);
                &&& blocked ==> (#[trigger] result[i]).verdict == Verdict::Block
                &&& !blocked && allowed ==> result[i].verdict == Verdict::Allow
                &&& !blocked && !allowed ==> match publication_for(pubs, cs[i].name@).published_at {
                    Some(ts) => result[i].verdict == if whole_days(now as int, ts as int)
                        >= config.min_age_days {
                        Verdict::Allow
                    } else {
                        Verdict::Block
                    },
                    None => result[i].verdict == if config.allow_unknown {
                        Verdict::Allow
                    } else {
                        Verdict::Block
                    },
                }
            },
{
    let ds = initial_decisions(cs, pubs, config, now);
    let hard = hard_flags(ds);
    let strict = config.dependency_policy == DependencyPolicy::StrictClosure;
    let k = choose|k: nat|
        {
            &&& settled_at(ds, hard, reqs, strict, k)
            &&& forall|j: nat| j < k ==> !settled_at(ds, hard, reqs, strict, j)
            &&& result == passes(ds, hard, reqs, strict, k)
        };
    assert(settled_at(ds, hard, reqs, strict, 0));
    assert(k == 0);
}

} // verus!
