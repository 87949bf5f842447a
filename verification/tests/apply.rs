use std::cell::RefCell;

use pactience::apply::{effective_uid, execute, is_valid_package_name, plan, Executor, PlannedCommand};
use pactience::config::AurHelper;
use pactience::error::{Error, Result};
use pactience::model::{Decision, PackageSource, Publication, UpgradeCandidate, Verdict};

fn decision(name: &str, source: PackageSource, verdict: Verdict) -> Decision {
    Decision {
        candidate: UpgradeCandidate {
            name: name.to_string(),
            installed_version: "1-1".to_string(),
            candidate_version: "2-1".to_string(),
            source,
        },
        publication: Publication::unknown(),
        verdict,
        reasons: vec![],
    }
}

#[test]
fn valid_names() {
    assert!(is_valid_package_name("linux"));
    assert!(is_valid_package_name("lib32-gcc-libs"));
    assert!(is_valid_package_name("python3.12"));
    assert!(is_valid_package_name("ttf-font+awesome"));
    assert!(!is_valid_package_name(""));
    assert!(!is_valid_package_name("foo;rm -rf"));
    assert!(!is_valid_package_name("foo bar"));
    assert!(!is_valid_package_name("../etc"));
}

#[test]
fn plan_separates_repo_and_aur_and_skips_blocked() {
    let decisions = vec![
        decision("linux", PackageSource::Repo, Verdict::Allow),
        decision("glibc", PackageSource::Repo, Verdict::Block),
        decision("paru-bin", PackageSource::Aur, Verdict::Promote),
    ];
    let cmds = plan(&decisions, false, AurHelper::Paru).unwrap();
    assert_eq!(
        cmds,
        vec![
            PlannedCommand {
                program: "sudo".into(),
                args: vec!["pacman".into(), "-S".into(), "linux".into()],
            },
            PlannedCommand {
                program: "paru".into(),
                args: vec!["-S".into(), "paru-bin".into()],
            },
        ]
    );
}

#[test]
fn plan_uses_configured_helper_program() {
    let decisions = vec![decision("paru-bin", PackageSource::Aur, Verdict::Allow)];
    let cmds = plan(&decisions, false, AurHelper::Yay).unwrap();
    assert_eq!(
        cmds,
        vec![PlannedCommand {
            program: "yay".into(),
            args: vec!["-S".into(), "paru-bin".into()],
        }]
    );
}

#[test]
fn plan_with_helper_none_rejects_aur_upgrades() {
    let decisions = vec![decision("paru-bin", PackageSource::Aur, Verdict::Allow)];
    assert!(plan(&decisions, false, AurHelper::Disabled).is_err());
    // Repo-only plans are unaffected by the disabled helper.
    let decisions = vec![decision("linux", PackageSource::Repo, Verdict::Allow)];
    assert_eq!(plan(&decisions, false, AurHelper::Disabled).unwrap().len(), 1);
}

#[test]
fn plan_as_root_skips_sudo() {
    let decisions = vec![decision("linux", PackageSource::Repo, Verdict::Allow)];
    let cmds = plan(&decisions, true, AurHelper::Paru).unwrap();
    assert_eq!(
        cmds,
        vec![PlannedCommand {
            program: "pacman".into(),
            args: vec!["-S".into(), "linux".into()],
        }]
    );
}

#[test]
fn empty_when_everything_blocked() {
    let decisions = vec![decision("glibc", PackageSource::Repo, Verdict::Block)];
    assert!(plan(&decisions, false, AurHelper::Paru).unwrap().is_empty());
}

#[test]
fn effective_uid_is_readable() {
    // The uid comes from the third field of the `Uid:` line of
    // /proc/self/status; here from a sample of that file.
    let status = "Name:\tcat\nUmask:\t0022\nState:\tR (running)\nUid:\t1000\t1000\t1000\t1000\nGid:\t1000\t1000\t1000\t1000\n";
    assert!(effective_uid(status).is_some());
    assert_eq!(effective_uid(status), Some(1000));
}

#[test]
fn effective_uid_reads_the_effective_field() {
    assert_eq!(effective_uid("Uid:\t1000\t0\t0\t0\n"), Some(0));
    assert_eq!(effective_uid("Gid:\t5\t5\n"), None);
    assert_eq!(effective_uid("Uid:\t1000\n"), None);
    assert_eq!(effective_uid("Uid:\tx\ty\tz\n"), None);
    assert_eq!(effective_uid(""), None);
}

#[test]
fn executor_is_called_in_order() {
    struct RecordingExecutor(RefCell<Vec<String>>);
    impl Executor for RecordingExecutor {
        fn run(&self, command: &PlannedCommand) -> Result<()> {
            self.0.borrow_mut().push(command.display());
            Ok(())
        }
    }
    let recorder = RecordingExecutor(RefCell::new(Vec::new()));
    let cmds = vec![
        PlannedCommand {
            program: "sudo".into(),
            args: vec!["pacman".into(), "-S".into(), "linux".into()],
        },
        PlannedCommand {
            program: "paru".into(),
            args: vec!["-S".into(), "paru-bin".into()],
        },
    ];
    execute(&cmds, &recorder).unwrap();
    assert_eq!(
        recorder.0.borrow().as_slice(),
        ["sudo pacman -S linux", "paru -S paru-bin"]
    );
}

#[test]
fn execute_stops_at_the_first_failure() {
    struct FailingExecutor(RefCell<usize>);
    impl Executor for FailingExecutor {
        fn run(&self, command: &PlannedCommand) -> Result<()> {
            *self.0.borrow_mut() += 1;
            Err(Error::command(&command.display(), "boom"))
        }
    }
    let exec = FailingExecutor(RefCell::new(0));
    let cmds = vec![
        PlannedCommand { program: "a".into(), args: vec![] },
        PlannedCommand { program: "b".into(), args: vec![] },
    ];
    assert!(execute(&cmds, &exec).is_err());
    assert_eq!(*exec.0.borrow(), 1);
}

#[test]
fn invalid_selected_name_is_refused_with_its_debug_form() {
    let decisions = vec![
        decision("ok", PackageSource::Repo, Verdict::Allow),
        decision("bad name", PackageSource::Repo, Verdict::Allow),
        decision("blocked;bad", PackageSource::Repo, Verdict::Block),
    ];
    match plan(&decisions, false, AurHelper::Paru) {
        Err(Error::Parse { what, message }) => {
            assert_eq!(what, "package name");
            assert_eq!(message, "refusing to upgrade invalid package name \"bad name\"");
        }
        other => panic!("unexpected {other:?}"),
    }
}
