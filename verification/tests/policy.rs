use pactience::config::{Config, DependencyPolicy};
use pactience::db::DepSpec;
use pactience::deps::{Requirement, RequirementStatus};
use pactience::model::{Decision, PackageSource, Publication, PublicationBasis, UpgradeCandidate, Verdict};
use pactience::policy::{evaluate, format_dep};

const DAY: i64 = 86_400;
const NOW: i64 = 100 * DAY;

fn candidate(name: &str) -> UpgradeCandidate {
    UpgradeCandidate {
        name: name.to_string(),
        installed_version: "1.0-1".to_string(),
        candidate_version: "2.0-1".to_string(),
        source: PackageSource::Repo,
    }
}

fn published_days_ago(days: i64) -> Publication {
    Publication::known(NOW - days * DAY, PublicationBasis::Archive)
}

fn config() -> Config {
    Config::default() // 4 days, dependency-respecting
}

fn pubs(entries: &[(&str, Publication)]) -> Vec<(String, Publication)> {
    entries.iter().map(|(n, p)| (n.to_string(), *p)).collect()
}

fn verdict_of(decisions: &[Decision], name: &str) -> Verdict {
    decisions
        .iter()
        .find(|d| d.candidate.name == name)
        .unwrap()
        .verdict
}

#[test]
fn old_enough_is_allowed() {
    let d = evaluate(
        &[candidate("foo")],
        &pubs(&[("foo", published_days_ago(10))]),
        &[],
        &config(),
        NOW,
    );
    assert_eq!(verdict_of(&d, "foo"), Verdict::Allow);
    assert!(d[0].reasons[0].contains("10d ago"));
}

#[test]
fn too_young_is_blocked() {
    let d = evaluate(
        &[candidate("foo")],
        &pubs(&[("foo", published_days_ago(2))]),
        &[],
        &config(),
        NOW,
    );
    assert_eq!(verdict_of(&d, "foo"), Verdict::Block);
}

#[test]
fn unknown_age_blocked_by_default_allowed_with_opt_in() {
    let d = evaluate(
        &[candidate("foo")],
        &pubs(&[("foo", Publication::unknown())]),
        &[],
        &config(),
        NOW,
    );
    assert_eq!(verdict_of(&d, "foo"), Verdict::Block);

    let mut cfg = config();
    cfg.allow_unknown = true;
    let d = evaluate(
        &[candidate("foo")],
        &pubs(&[("foo", Publication::unknown())]),
        &[],
        &cfg,
        NOW,
    );
    assert_eq!(verdict_of(&d, "foo"), Verdict::Allow);
}

#[test]
fn allow_and_block_lists_override_age() {
    let mut cfg = config();
    cfg.always_allow = vec!["young".to_string()];
    cfg.always_block = vec!["old".to_string()];
    let d = evaluate(
        &[candidate("young"), candidate("old")],
        &pubs(&[
            ("young", published_days_ago(0)),
            ("old", published_days_ago(30)),
        ]),
        &[],
        &cfg,
        NOW,
    );
    assert_eq!(verdict_of(&d, "young"), Verdict::Allow);
    assert_eq!(verdict_of(&d, "old"), Verdict::Block);
}

#[test]
fn dependency_respecting_promotes_young_dependency() {
    let reqs = vec![Requirement {
        dependent: "app".to_string(),
        dep: DepSpec::parse("lib>=2.0").unwrap(),
        status: RequirementStatus::RequiresCandidate {
            name: "lib".to_string(),
        },
    }];
    let d = evaluate(
        &[candidate("app"), candidate("lib")],
        &pubs(&[
            ("app", published_days_ago(10)),
            ("lib", published_days_ago(1)),
        ]),
        &reqs,
        &config(),
        NOW,
    );
    assert_eq!(verdict_of(&d, "app"), Verdict::Allow);
    assert_eq!(verdict_of(&d, "lib"), Verdict::Promote);
}

#[test]
fn promotion_chains_transitively() {
    // app -> lib -> base; only app is old enough.
    let reqs = vec![
        Requirement {
            dependent: "app".to_string(),
            dep: DepSpec::parse("lib>=2.0").unwrap(),
            status: RequirementStatus::RequiresCandidate {
                name: "lib".to_string(),
            },
        },
        Requirement {
            dependent: "lib".to_string(),
            dep: DepSpec::parse("base>=2.0").unwrap(),
            status: RequirementStatus::RequiresCandidate {
                name: "base".to_string(),
            },
        },
    ];
    let d = evaluate(
        &[candidate("app"), candidate("lib"), candidate("base")],
        &pubs(&[
            ("app", published_days_ago(10)),
            ("lib", published_days_ago(1)),
            ("base", published_days_ago(1)),
        ]),
        &reqs,
        &config(),
        NOW,
    );
    assert_eq!(verdict_of(&d, "app"), Verdict::Allow);
    assert_eq!(verdict_of(&d, "lib"), Verdict::Promote);
    assert_eq!(verdict_of(&d, "base"), Verdict::Promote);
}

#[test]
fn always_block_dependency_blocks_dependent() {
    let mut cfg = config();
    cfg.always_block = vec!["lib".to_string()];
    let reqs = vec![Requirement {
        dependent: "app".to_string(),
        dep: DepSpec::parse("lib>=2.0").unwrap(),
        status: RequirementStatus::RequiresCandidate {
            name: "lib".to_string(),
        },
    }];
    let d = evaluate(
        &[candidate("app"), candidate("lib")],
        &pubs(&[
            ("app", published_days_ago(10)),
            ("lib", published_days_ago(10)),
        ]),
        &reqs,
        &cfg,
        NOW,
    );
    assert_eq!(verdict_of(&d, "lib"), Verdict::Block);
    assert_eq!(verdict_of(&d, "app"), Verdict::Block);
    assert!(d
        .iter()
        .find(|x| x.candidate.name == "app")
        .unwrap()
        .reasons
        .iter()
        .any(|r| r.contains("always_block")));
}

#[test]
fn unsatisfied_requirement_blocks_dependent() {
    let reqs = vec![Requirement {
        dependent: "app".to_string(),
        dep: DepSpec::parse("ghost>=9.0").unwrap(),
        status: RequirementStatus::Unsatisfied,
    }];
    let d = evaluate(
        &[candidate("app")],
        &pubs(&[("app", published_days_ago(10))]),
        &reqs,
        &config(),
        NOW,
    );
    assert_eq!(verdict_of(&d, "app"), Verdict::Block);
}

#[test]
fn strict_closure_blocks_instead_of_promoting() {
    let mut cfg = config();
    cfg.dependency_policy = DependencyPolicy::StrictClosure;
    let reqs = vec![
        Requirement {
            dependent: "app".to_string(),
            dep: DepSpec::parse("lib>=2.0").unwrap(),
            status: RequirementStatus::RequiresCandidate {
                name: "lib".to_string(),
            },
        },
        Requirement {
            dependent: "gui".to_string(),
            dep: DepSpec::parse("app>=2.0").unwrap(),
            status: RequirementStatus::RequiresCandidate {
                name: "app".to_string(),
            },
        },
    ];
    let d = evaluate(
        &[candidate("app"), candidate("lib"), candidate("gui")],
        &pubs(&[
            ("app", published_days_ago(10)),
            ("lib", published_days_ago(1)),
            ("gui", published_days_ago(10)),
        ]),
        &reqs,
        &cfg,
        NOW,
    );
    // lib too young -> app blocked -> gui blocked transitively.
    assert_eq!(verdict_of(&d, "lib"), Verdict::Block);
    assert_eq!(verdict_of(&d, "app"), Verdict::Block);
    assert_eq!(verdict_of(&d, "gui"), Verdict::Block);
}

#[test]
fn strict_closure_allows_when_provider_age_allowed() {
    let mut cfg = config();
    cfg.dependency_policy = DependencyPolicy::StrictClosure;
    let reqs = vec![Requirement {
        dependent: "app".to_string(),
        dep: DepSpec::parse("lib>=2.0").unwrap(),
        status: RequirementStatus::RequiresCandidate {
            name: "lib".to_string(),
        },
    }];
    let d = evaluate(
        &[candidate("app"), candidate("lib")],
        &pubs(&[
            ("app", published_days_ago(10)),
            ("lib", published_days_ago(10)),
        ]),
        &reqs,
        &cfg,
        NOW,
    );
    assert_eq!(verdict_of(&d, "app"), Verdict::Allow);
    assert_eq!(verdict_of(&d, "lib"), Verdict::Allow);
}

#[test]
fn age_reason_names_the_threshold_and_basis() {
    let d = evaluate(
        &[candidate("foo")],
        &pubs(&[("foo", published_days_ago(2))]),
        &[],
        &config(),
        NOW,
    );
    assert_eq!(d[0].reasons.len(), 1);
    assert!(d[0].reasons[0].contains("4d"));
    assert!(d[0].reasons[0].contains("archive"));
}

#[test]
fn format_dep_prints_the_constraint() {
    assert_eq!(format_dep(&DepSpec::parse("lib>=2.0").unwrap()), "lib>=2.0");
    assert_eq!(format_dep(&DepSpec::parse("sh").unwrap()), "sh");
}

#[test]
fn every_verdict_keeps_its_age_reason_first() {
    let reqs = vec![Requirement {
        dependent: "app".to_string(),
        dep: DepSpec::parse("lib>=2.0").unwrap(),
        status: RequirementStatus::RequiresCandidate { name: "lib".to_string() },
    }];
    let d = evaluate(
        &[candidate("app"), candidate("lib")],
        &pubs(&[("app", published_days_ago(10)), ("lib", published_days_ago(1))]),
        &reqs,
        &config(),
        NOW,
    );
    assert_eq!(d.len(), 2);
    assert_eq!(d[0].candidate.name, "app");
    assert_eq!(d[1].candidate.name, "lib");
    assert_eq!(d[1].verdict, Verdict::Promote);
    assert_eq!(d[1].reasons.len(), 2);
    assert_eq!(
        d[1].reasons[0],
        "published 1d ago, below 4d minimum (archive)"
    );
    assert_eq!(d[1].reasons[1], "promoted despite age: required by app (lib>=2.0)");
}

#[test]
fn strict_closure_never_promotes() {
    let mut cfg = config();
    cfg.dependency_policy = DependencyPolicy::StrictClosure;
    let reqs = vec![Requirement {
        dependent: "app".to_string(),
        dep: DepSpec::parse("lib>=2.0").unwrap(),
        status: RequirementStatus::RequiresCandidate { name: "lib".to_string() },
    }];
    let d = evaluate(
        &[candidate("app"), candidate("lib")],
        &pubs(&[("app", published_days_ago(10)), ("lib", published_days_ago(1))]),
        &reqs,
        &cfg,
        NOW,
    );
    assert!(d.iter().all(|x| x.verdict != Verdict::Promote));
    assert_eq!(verdict_of(&d, "app"), Verdict::Block);
    assert_eq!(verdict_of(&d, "lib"), Verdict::Block);
}

#[test]
fn age_gate_boundary_is_whole_days() {
    // Exactly four days old meets a four-day minimum; a second less does not.
    let d = evaluate(
        &[candidate("a"), candidate("b")],
        &pubs(&[
            ("a", Publication::known(NOW - 4 * DAY, PublicationBasis::Archive)),
            ("b", Publication::known(NOW - 4 * DAY + 1, PublicationBasis::Archive)),
        ]),
        &[],
        &config(),
        NOW,
    );
    assert_eq!(verdict_of(&d, "a"), Verdict::Allow);
    assert_eq!(verdict_of(&d, "b"), Verdict::Block);
}

#[test]
fn unpromotable_dependency_blocks_its_dependent() {
    // lib is promoted for app, then blocked for its own unsatisfiable
    // requirement; app then cannot have it and is held back too.
    let reqs = vec![
        Requirement {
            dependent: "app".to_string(),
            dep: DepSpec::parse("lib>=2.0").unwrap(),
            status: RequirementStatus::RequiresCandidate { name: "lib".to_string() },
        },
        Requirement {
            dependent: "lib".to_string(),
            dep: DepSpec::parse("ghost>=9.0").unwrap(),
            status: RequirementStatus::Unsatisfied,
        },
    ];
    let cs = [candidate("app"), candidate("lib")];
    let ps = pubs(&[("app", published_days_ago(10)), ("lib", published_days_ago(1))]);
    let d = evaluate(&cs, &ps, &reqs, &config(), NOW);
    assert_eq!(verdict_of(&d, "app"), Verdict::Block);
    assert_eq!(verdict_of(&d, "lib"), Verdict::Block);
    assert_eq!(d[0].reasons.last().unwrap(), "blocked: requires lib>=2.0, but lib is held back");

    // Under strict-closure the same inputs block both as well.
    let mut cfg = config();
    cfg.dependency_policy = DependencyPolicy::StrictClosure;
    let d = evaluate(&cs, &ps, &reqs, &cfg, NOW);
    assert_eq!(verdict_of(&d, "app"), Verdict::Block);
    assert_eq!(verdict_of(&d, "lib"), Verdict::Block);
}

#[test]
fn held_back_dependent_is_promoted_alongside_its_dependency() {
    // app is too young, lib is old enough; app needs lib. Upgrading lib
    // alone would leave app built against the old lib, so app moves too.
    let reqs = vec![Requirement {
        dependent: "app".to_string(),
        dep: DepSpec::parse("lib>=2.0").unwrap(),
        status: RequirementStatus::RequiresCandidate { name: "lib".to_string() },
    }];
    let cs = [candidate("app"), candidate("lib")];
    let ps = pubs(&[("app", published_days_ago(1)), ("lib", published_days_ago(10))]);
    let d = evaluate(&cs, &ps, &reqs, &config(), NOW);
    assert_eq!(verdict_of(&d, "app"), Verdict::Promote);
    assert_eq!(verdict_of(&d, "lib"), Verdict::Allow);
    assert_eq!(
        d[0].reasons.last().unwrap(),
        "promoted despite age: upgraded together with its dependency lib (lib>=2.0)"
    );

    // An unversioned dependency the installed lib already satisfies couples
    // the two just the same.
    let reqs = vec![Requirement {
        dependent: "app".to_string(),
        dep: DepSpec::parse("lib").unwrap(),
        status: RequirementStatus::SatisfiedByInstalled { version: "1.0-1".to_string() },
    }];
    let d = evaluate(&cs, &ps, &reqs, &config(), NOW);
    assert_eq!(verdict_of(&d, "app"), Verdict::Promote);
    assert_eq!(verdict_of(&d, "lib"), Verdict::Allow);
}

#[test]
fn dependency_of_an_immovable_dependent_is_blocked() {
    // app is on the block list, so it cannot move; lib, which app depends
    // on, is blocked with it rather than upgraded alone.
    let reqs = vec![Requirement {
        dependent: "app".to_string(),
        dep: DepSpec::parse("lib>=2.0").unwrap(),
        status: RequirementStatus::RequiresCandidate { name: "lib".to_string() },
    }];
    let cs = [candidate("app"), candidate("lib")];
    let ps = pubs(&[("app", published_days_ago(10)), ("lib", published_days_ago(10))]);
    let mut cfg = config();
    cfg.always_block = vec!["app".to_string()];
    let d = evaluate(&cs, &ps, &reqs, &cfg, NOW);
    assert_eq!(verdict_of(&d, "app"), Verdict::Block);
    assert_eq!(verdict_of(&d, "lib"), Verdict::Block);
    assert_eq!(
        d[1].reasons.last().unwrap(),
        "blocked: app depends on it (lib>=2.0) and is held back"
    );

    // Under strict-closure a young dependent holds its dependency back too.
    cfg = config();
    cfg.dependency_policy = DependencyPolicy::StrictClosure;
    let ps = pubs(&[("app", published_days_ago(1)), ("lib", published_days_ago(10))]);
    let d = evaluate(&cs, &ps, &reqs, &cfg, NOW);
    assert_eq!(verdict_of(&d, "app"), Verdict::Block);
    assert_eq!(verdict_of(&d, "lib"), Verdict::Block);
}
