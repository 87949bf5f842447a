use pactience::db::{DepSpec, InstalledPackage, LocalDb, Provide, RepoPackageMeta, SyncDb};
use pactience::deps::{analyze, collect_candidate_deps, provide_satisfies, CandidateDeps, RequirementStatus};
use pactience::model::{PackageSource, UpgradeCandidate};
use pactience::publication::aur::AurInfo;

fn candidate(name: &str, installed: &str, candidate_version: &str) -> UpgradeCandidate {
    UpgradeCandidate {
        name: name.to_string(),
        installed_version: installed.to_string(),
        candidate_version: candidate_version.to_string(),
        source: PackageSource::Repo,
    }
}

fn dep(raw: &str) -> DepSpec {
    DepSpec::parse(raw).unwrap()
}

fn localdb_with(pkgs: &[(&str, &str)]) -> LocalDb {
    let mut db = LocalDb::default();
    for (name, version) in pkgs {
        db.insert(
            name.to_string(),
            InstalledPackage {
                version: version.to_string(),
                provides: vec![],
            },
        );
    }
    db
}

fn deps_of(entries: Vec<(&str, Vec<DepSpec>)>) -> CandidateDeps {
    entries.into_iter().map(|(n, d)| (n.to_string(), d)).collect()
}

#[test]
fn satisfied_by_installed_version() {
    let candidates = vec![candidate("foo", "1.0-1", "2.0-1")];
    let deps = deps_of(vec![("foo", vec![dep("bar>=1.0")])]);
    let localdb = localdb_with(&[("foo", "1.0-1"), ("bar", "1.5-1")]);
    let reqs = analyze(&candidates, &deps, &SyncDb::default(), &localdb);
    assert_eq!(reqs.len(), 1);
    assert_eq!(
        reqs[0].status,
        RequirementStatus::SatisfiedByInstalled {
            version: "1.5-1".to_string()
        }
    );
}

#[test]
fn newer_dependency_requires_candidate() {
    let candidates = vec![
        candidate("foo", "1.0-1", "2.0-1"),
        candidate("bar", "1.0-1", "2.0-1"),
    ];
    let deps = deps_of(vec![("foo", vec![dep("bar>=2.0")])]);
    let localdb = localdb_with(&[("foo", "1.0-1"), ("bar", "1.0-1")]);
    let reqs = analyze(&candidates, &deps, &SyncDb::default(), &localdb);
    assert_eq!(
        reqs[0].status,
        RequirementStatus::RequiresCandidate {
            name: "bar".to_string()
        }
    );
}

#[test]
fn old_installed_and_not_in_set_is_unsatisfied() {
    let candidates = vec![candidate("foo", "1.0-1", "2.0-1")];
    let deps = deps_of(vec![("foo", vec![dep("bar>=2.0")])]);
    let localdb = localdb_with(&[("foo", "1.0-1"), ("bar", "1.0-1")]);
    let reqs = analyze(&candidates, &deps, &SyncDb::default(), &localdb);
    assert_eq!(reqs[0].status, RequirementStatus::Unsatisfied);
}

#[test]
fn new_uninstalled_dependency_is_unsatisfied() {
    let candidates = vec![candidate("foo", "1.0-1", "2.0-1")];
    let deps = deps_of(vec![("foo", vec![dep("newlib")])]);
    let localdb = localdb_with(&[("foo", "1.0-1")]);
    let reqs = analyze(&candidates, &deps, &SyncDb::default(), &localdb);
    assert_eq!(reqs[0].status, RequirementStatus::Unsatisfied);
}

#[test]
fn virtual_capability_satisfied_by_installed_provider() {
    let candidates = vec![candidate("foo", "1.0-1", "2.0-1")];
    let deps = deps_of(vec![("foo", vec![dep("sh")])]);
    let mut localdb = localdb_with(&[("foo", "1.0-1")]);
    localdb.insert(
        "bash".to_string(),
        InstalledPackage {
            version: "5.2-1".to_string(),
            provides: vec![Provide {
                name: "sh".to_string(),
                version: None,
            }],
        },
    );
    let reqs = analyze(&candidates, &deps, &SyncDb::default(), &localdb);
    assert!(matches!(
        reqs[0].status,
        RequirementStatus::SatisfiedByInstalled { .. }
    ));
}

#[test]
fn virtual_capability_can_require_candidate_provider() {
    let candidates = vec![
        candidate("foo", "1.0-1", "2.0-1"),
        candidate("bar", "1.0-1", "2.0-1"),
    ];
    let deps = deps_of(vec![("foo", vec![dep("virtualthing")])]);
    let localdb = localdb_with(&[("foo", "1.0-1"), ("bar", "1.0-1")]);
    let mut syncdb = SyncDb::default();
    syncdb.insert(RepoPackageMeta {
        name: "bar".to_string(),
        version: "2.0-1".to_string(),
        provides: vec![Provide {
            name: "virtualthing".to_string(),
            version: None,
        }],
        ..Default::default()
    });
    let reqs = analyze(&candidates, &deps, &syncdb, &localdb);
    assert_eq!(
        reqs[0].status,
        RequirementStatus::RequiresCandidate {
            name: "bar".to_string()
        }
    );
}

#[test]
fn self_dependencies_are_ignored() {
    let candidates = vec![candidate("foo", "1.0-1", "2.0-1")];
    let deps = deps_of(vec![("foo", vec![dep("foo>=2.0")])]);
    let localdb = localdb_with(&[("foo", "1.0-1")]);
    let reqs = analyze(&candidates, &deps, &SyncDb::default(), &localdb);
    assert!(reqs.is_empty());
}

#[test]
fn versioned_provide_is_compared() {
    assert!(provide_satisfies(&dep("lib=1.0"), Some("1.0")));
    assert!(!provide_satisfies(&dep("lib=1.0"), Some("2.0")));
    assert!(provide_satisfies(&dep("lib"), None));
    assert!(!provide_satisfies(&dep("lib>=1.0"), None));
}

#[test]
fn depspec_ops_end_to_end() {
    // Guards against DepOp wiring regressions in satisfied_by.
    assert!(dep("x<=2.0").satisfied_by("1.9"));
    assert!(!dep("x<=2.0").satisfied_by("2.1"));
    assert!(dep("x>2.0").satisfied_by("2.1"));
    assert!(!dep("x>2.0").satisfied_by("2.0"));
}

#[test]
fn candidate_deps_come_from_the_matching_version_only() {
    let mut syncdb = SyncDb::default();
    syncdb.insert(RepoPackageMeta {
        name: "foo".to_string(),
        version: "2.0-1".to_string(),
        depends: vec![dep("glibc")],
        ..Default::default()
    });
    syncdb.insert(RepoPackageMeta {
        name: "stale".to_string(),
        version: "9.9-9".to_string(),
        depends: vec![dep("glibc")],
        ..Default::default()
    });
    let infos = vec![AurInfo {
        name: "paru-bin".to_string(),
        version: "2.0.4-1".to_string(),
        last_modified: None,
        depends: vec![dep("git"), dep("pacman>=6.0")],
    }];
    let mut aur = candidate("paru-bin", "2.0.3-1", "2.0.4-1");
    aur.source = PackageSource::Aur;
    let candidates = vec![
        candidate("foo", "1.0-1", "2.0-1"),
        candidate("stale", "1.0-1", "2.0-1"),
        aur,
    ];
    let deps = collect_candidate_deps(&candidates, &syncdb, &infos);
    assert_eq!(deps.len(), 2);
    assert_eq!(deps[0].0, "foo");
    assert_eq!(deps[0].1[0].name, "glibc");
    assert_eq!(deps[1].0, "paru-bin");
    assert_eq!(deps[1].1.len(), 2);
}
