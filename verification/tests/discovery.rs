use pactience::config::AurHelper;
use pactience::discovery::{discover, format_command, parse_qu_output, CommandOutput, CommandRunner};
use pactience::error::{Error, Result};
use pactience::model::PackageSource;

struct FakeRunner {
    responses: Vec<(String, Result<CommandOutput>)>,
}

impl FakeRunner {
    fn ok(program: &str, stdout: &str) -> (String, Result<CommandOutput>) {
        (
            program.to_string(),
            Ok(CommandOutput {
                status: Some(0),
                stdout: stdout.to_string(),
                stderr: String::new(),
            }),
        )
    }
}

impl CommandRunner for FakeRunner {
    fn run(&self, program: &str, _args: &[&str]) -> Result<CommandOutput> {
        for (name, out) in &self.responses {
            if name == program {
                return match out {
                    Ok(o) => Ok(CommandOutput {
                        status: o.status,
                        stdout: o.stdout.clone(),
                        stderr: o.stderr.clone(),
                    }),
                    Err(_) => Err(Error::command(program, "not found")),
                };
            }
        }
        Err(Error::command(program, "not found"))
    }
}

#[test]
fn parses_pacman_qu_lines() {
    let out = "linux 6.8.1.arch1-1 -> 6.8.2.arch1-1\nfirefox 124.0-1 -> 124.0.1-1\n";
    let c = parse_qu_output(out, PackageSource::Repo);
    assert_eq!(c.len(), 2);
    assert_eq!(c[0].name, "linux");
    assert_eq!(c[0].installed_version, "6.8.1.arch1-1");
    assert_eq!(c[0].candidate_version, "6.8.2.arch1-1");
    assert_eq!(c[0].source, PackageSource::Repo);
}

#[test]
fn skips_ignored_and_malformed_lines() {
    let out = "linux 6.8-1 -> 6.9-1 [ignored]\n\nnot enough tokens\nevil;name 1 -> 2\nvim 9.1-1 -> 9.2-1 extra-annotation\n";
    let c = parse_qu_output(out, PackageSource::Repo);
    assert_eq!(c.len(), 1);
    assert_eq!(c[0].name, "vim");
}

#[test]
fn parses_aur_lines_with_source() {
    let out = "paru-bin 2.0.3-1 -> 2.0.4-1\n";
    let c = parse_qu_output(out, PackageSource::Aur);
    assert_eq!(c.len(), 1);
    assert_eq!(c[0].source, PackageSource::Aur);
}

const BOTH: &[PackageSource] = &[PackageSource::Repo, PackageSource::Aur];
const REPO: &[PackageSource] = &[PackageSource::Repo];
const AUR: &[PackageSource] = &[PackageSource::Aur];

#[test]
fn discover_combines_sources_and_survives_missing_paru() {
    let runner = FakeRunner {
        responses: vec![FakeRunner::ok("pacman", "linux 1-1 -> 2-1\n")],
    };
    let (candidates, warnings) = discover(&runner, AurHelper::Paru, BOTH).unwrap();
    assert_eq!(candidates.len(), 1);
    assert_eq!(warnings.len(), 1);
    assert!(warnings[0].contains("AUR discovery unavailable"));
}

#[test]
fn discover_uses_configured_helper_program() {
    let runner = FakeRunner {
        responses: vec![
            FakeRunner::ok("pacman", "linux 1-1 -> 2-1\n"),
            FakeRunner::ok("yay", "paru-bin 1-1 -> 2-1\n"),
        ],
    };
    let (candidates, warnings) = discover(&runner, AurHelper::Yay, BOTH).unwrap();
    assert!(warnings.is_empty());
    assert_eq!(candidates.len(), 2);
    assert_eq!(candidates[1].name, "paru-bin");
    assert_eq!(candidates[1].source, PackageSource::Aur);
}

#[test]
fn discover_with_helper_none_skips_aur_without_warning() {
    let runner = FakeRunner {
        responses: vec![FakeRunner::ok("pacman", "linux 1-1 -> 2-1\n")],
    };
    let (candidates, warnings) = discover(&runner, AurHelper::Disabled, BOTH).unwrap();
    assert_eq!(candidates.len(), 1);
    assert_eq!(candidates[0].source, PackageSource::Repo);
    assert!(warnings.is_empty());
}

#[test]
fn discover_dedupes_preferring_repo() {
    let runner = FakeRunner {
        responses: vec![
            FakeRunner::ok("pacman", "foo 1-1 -> 2-1\n"),
            FakeRunner::ok("paru", "foo 1-1 -> 2-1\nbar 3-1 -> 4-1\n"),
        ],
    };
    let (candidates, _) = discover(&runner, AurHelper::Paru, BOTH).unwrap();
    assert_eq!(candidates.len(), 2);
    let foo = candidates.iter().find(|c| c.name == "foo").unwrap();
    assert_eq!(foo.source, PackageSource::Repo);
}

#[test]
fn sources_repo_never_touches_the_aur_helper() {
    // The runner has no paru response: an AUR call would produce the
    // "unavailable" warning, so a clean run proves it was skipped.
    let runner = FakeRunner {
        responses: vec![FakeRunner::ok("pacman", "linux 1-1 -> 2-1\n")],
    };
    let (candidates, warnings) = discover(&runner, AurHelper::Paru, REPO).unwrap();
    assert_eq!(candidates.len(), 1);
    assert_eq!(candidates[0].source, PackageSource::Repo);
    assert!(warnings.is_empty());
}

#[test]
fn sources_aur_never_touches_pacman() {
    // No pacman response: a repo call would hard-error (`?`), so success
    // proves pacman was skipped.
    let runner = FakeRunner {
        responses: vec![FakeRunner::ok("paru", "paru-bin 1-1 -> 2-1\n")],
    };
    let (candidates, warnings) = discover(&runner, AurHelper::Paru, AUR).unwrap();
    assert_eq!(candidates.len(), 1);
    assert_eq!(candidates[0].source, PackageSource::Aur);
    assert!(warnings.is_empty());
}

#[test]
fn sources_aur_with_helper_none_warns() {
    let runner = FakeRunner { responses: vec![] };
    let (candidates, warnings) = discover(&runner, AurHelper::Disabled, AUR).unwrap();
    assert!(candidates.is_empty());
    assert_eq!(warnings.len(), 1);
    assert!(warnings[0].contains("sources = [\"aur\"]"));
}

#[test]
fn failing_listing_status_is_a_warning_with_trimmed_stderr() {
    let runner = FakeRunner {
        responses: vec![(
            "pacman".to_string(),
            Ok(CommandOutput {
                status: Some(2),
                stdout: String::new(),
                stderr: "  database locked \n".to_string(),
            }),
        )],
    };
    let (candidates, warnings) = discover(&runner, AurHelper::Disabled, REPO).unwrap();
    assert!(candidates.is_empty());
    assert_eq!(warnings, vec!["pacman -Qu exited with status Some(2): database locked".to_string()]);
}

#[test]
fn missing_pacman_is_an_error() {
    let runner = FakeRunner { responses: vec![] };
    assert!(discover(&runner, AurHelper::Paru, BOTH).is_err());
}

#[test]
fn format_command_joins_with_spaces() {
    assert_eq!(format_command("git", &["-C", "/x", "log"]), "git -C /x log");
    assert_eq!(format_command("pacman", &[]), "pacman");
}

#[test]
fn nonzero_status_with_a_listing_is_not_a_failure() {
    let runner = FakeRunner {
        responses: vec![(
            "pacman".to_string(),
            Ok(CommandOutput {
                status: Some(2),
                stdout: "linux 1-1 -> 2-1\n".to_string(),
                stderr: "warning: something\n".to_string(),
            }),
        )],
    };
    let (candidates, warnings) = discover(&runner, AurHelper::Disabled, REPO).unwrap();
    assert_eq!(candidates.len(), 1);
    assert!(warnings.is_empty());
}

#[test]
fn missing_helper_leaves_exactly_the_unavailable_warning() {
    let runner = FakeRunner {
        responses: vec![FakeRunner::ok("pacman", "linux 1-1 -> 2-1\n")],
    };
    let (candidates, warnings) = discover(&runner, AurHelper::Paru, BOTH).unwrap();
    assert_eq!(candidates.len(), 1);
    assert_eq!(
        warnings,
        vec![
            "AUR discovery unavailable (failed to run `paru`: not found); continuing with repository packages only"
                .to_string()
        ]
    );
}
