use std::cell::RefCell;

use pactience::discovery::{CommandOutput, CommandRunner};
use pactience::error::Result;
use pactience::model::{PackageSource, Publication, PublicationBasis, UpgradeCandidate};
use pactience::publication::aur_git::{
    clone_args, earliest_timestamp, fetch_args, git_publication, history_args, pickaxe_args, show_args, history_is_monotonic, parse_history, parse_srcinfo_version, parse_times,
    pkgver_line, plausible_earliest, times_are_monotonic, AurGitPublicationSource,
};

/// Records every invocation; responds based on the joined command line.
struct ScriptRunner {
    invocations: RefCell<Vec<String>>,
    responses: Vec<(String, CommandOutput)>,
}

impl ScriptRunner {
    fn new() -> Self {
        ScriptRunner {
            invocations: RefCell::new(Vec::new()),
            responses: Vec::new(),
        }
    }

    fn on(mut self, needle: &str, status: i32, stdout: &str) -> Self {
        self.responses.push((
            needle.to_string(),
            CommandOutput {
                status: Some(status),
                stdout: stdout.to_string(),
                stderr: String::new(),
            },
        ));
        self
    }

    fn calls_matching(&self, needle: &str) -> usize {
        self.invocations
            .borrow()
            .iter()
            .filter(|c| c.contains(needle))
            .count()
    }
}

impl CommandRunner for ScriptRunner {
    fn run(&self, program: &str, args: &[&str]) -> Result<CommandOutput> {
        let cmd = std::iter::once(program)
            .chain(args.iter().copied())
            .collect::<Vec<_>>()
            .join(" ");
        self.invocations.borrow_mut().push(cmd.clone());
        for (needle, out) in &self.responses {
            if cmd.contains(needle) {
                return Ok(CommandOutput {
                    status: out.status,
                    stdout: out.stdout.clone(),
                    stderr: out.stderr.clone(),
                });
            }
        }
        // Default: git clone/fetch succeed silently, git log finds nothing.
        Ok(CommandOutput {
            status: Some(0),
            stdout: String::new(),
            stderr: String::new(),
        })
    }
}

fn candidate(name: &str, version: &str) -> UpgradeCandidate {
    UpgradeCandidate {
        name: name.to_string(),
        installed_version: "1.0-1".to_string(),
        candidate_version: version.to_string(),
        source: PackageSource::Aur,
    }
}

fn srcinfo(pkgver: &str, pkgrel: &str) -> String {
    format!("pkgbase = test\n\tpkgver = {pkgver}\n\tpkgrel = {pkgrel}\n\npkgname = test\n")
}

/// Runner preloaded with a `.SRCINFO` history: newest-first
/// `(sha, ts, pkgver, pkgrel)` rows, served via `git log`/`git show`.
fn history_runner(rows: &[(&str, i64, &str, &str)]) -> ScriptRunner {
    let log = rows
        .iter()
        .map(|(sha, ts, _, _)| format!("{sha} {ts}"))
        .collect::<Vec<_>>()
        .join("\n");
    let mut runner = ScriptRunner::new().on("-- .SRCINFO", 0, &log);
    for (sha, _, pkgver, pkgrel) in rows {
        runner = runner.on(&format!("show {sha}:.SRCINFO"), 0, &srcinfo(pkgver, pkgrel));
    }
    runner
}

const CACHE: &str = "/nonexistent/pactience/aur-git";

#[test]
fn parses_srcinfo_versions() {
    assert_eq!(
        parse_srcinfo_version(&srcinfo("2.1.0", "2")),
        Some("2.1.0-2".to_string())
    );
    assert_eq!(
        parse_srcinfo_version("\tepoch = 1\n\tpkgver = 2.0\n\tpkgrel = 1\n"),
        Some("1:2.0-1".to_string())
    );
    assert_eq!(
        parse_srcinfo_version("\tpkgver = 2.0\n"),
        Some("2.0".to_string())
    );
    assert_eq!(parse_srcinfo_version("garbage"), None);
}

#[test]
fn clones_then_dates_the_exact_candidate_run() {
    // Newest first: candidate 2.1.0-2 spans two commits; its publication
    // is the OLDEST of the run (200), when the pkgrel-2 build appeared.
    let runner = history_runner(&[
        ("aaa", 300, "2.1.0", "2"),
        ("bbb", 200, "2.1.0", "2"),
        ("ccc", 100, "2.1.0", "1"),
    ]);
    let source = AurGitPublicationSource::with_base_url(&runner, CACHE.to_string(), "https://aur.test");
    let p = source.publication(&candidate("paru", "2.1.0-2"), false).unwrap();
    assert_eq!(p.published_at, Some(200));
    assert_eq!(p.basis, PublicationBasis::AurGit);
    assert_eq!(runner.calls_matching("clone --bare"), 1);
    assert_eq!(runner.calls_matching("https://aur.test/paru.git"), 1);
    // The PKGBUILD fallback must not run when .SRCINFO resolves.
    assert_eq!(runner.calls_matching("-- PKGBUILD"), 0);
}

#[test]
fn pkgrel_bump_redates_the_build() {
    // Candidate 2.1.0-2 only exists in the newest commit: the rebuild is
    // treated as a fresh publication even though pkgver is older.
    let runner = history_runner(&[("aaa", 300, "2.1.0", "2"), ("bbb", 100, "2.1.0", "1")]);
    let source = AurGitPublicationSource::with_base_url(&runner, CACHE.to_string(), "https://aur.test");
    let p = source.publication(&candidate("paru", "2.1.0-2"), false).unwrap();
    assert_eq!(p.published_at, Some(300));
}

#[test]
fn epoch_versions_match_exactly() {
    let runner = ScriptRunner::new().on("-- .SRCINFO", 0, "aaa 300").on(
        "show aaa:.SRCINFO",
        0,
        "\tepoch = 1\n\tpkgver = 2.0\n\tpkgrel = 1\n",
    );
    let source = AurGitPublicationSource::with_base_url(&runner, CACHE.to_string(), "https://aur.test");
    let p = source.publication(&candidate("foo", "1:2.0-1"), false).unwrap();
    assert_eq!(p.published_at, Some(300));
}

#[test]
fn existing_repo_is_fetched_not_cloned() {
    let runner = history_runner(&[("aaa", 100, "2.1.0", "2")]);
    let source = AurGitPublicationSource::with_base_url(&runner, CACHE.to_string(), "https://aur.test");
    // The clone's HEAD already exists.
    let p = source.publication(&candidate("paru", "2.1.0-2"), true).unwrap();
    assert_eq!(p.published_at, Some(100));
    assert_eq!(runner.calls_matching("clone --bare"), 0);
    assert_eq!(runner.calls_matching("fetch --quiet"), 1);
}

#[test]
fn falls_back_to_pkgbuild_pkgver() {
    // No .SRCINFO history (empty log); PKGBUILD has the pkgver bump.
    let runner = ScriptRunner::new().on("-- PKGBUILD", 0, "1700000000\n");
    let source = AurGitPublicationSource::with_base_url(&runner, CACHE.to_string(), "https://aur.test");
    let p = source.publication(&candidate("foo", "2.0-3"), false).unwrap();
    assert_eq!(p.published_at, Some(1700000000));
    assert!(runner.calls_matching("-S pkgver=2.0") >= 1);
}

#[test]
fn unknown_version_is_unknown_not_error() {
    // History exists but never contains the candidate version.
    let runner = history_runner(&[("aaa", 100, "9.9", "1")]);
    let source = AurGitPublicationSource::with_base_url(&runner, CACHE.to_string(), "https://aur.test");
    let p = source.publication(&candidate("foo", "1.0-1"), false).unwrap();
    assert_eq!(p.published_at, None);
}

#[test]
fn clone_failure_is_an_error() {
    let runner = ScriptRunner::new().on("clone --bare", 128, "");
    let source = AurGitPublicationSource::with_base_url(&runner, CACHE.to_string(), "https://aur.test");
    assert!(source.publication(&candidate("foo", "1.0-1"), false).is_err());
}

#[test]
fn invalid_names_are_rejected() {
    let runner = ScriptRunner::new();
    let source = AurGitPublicationSource::with_base_url(&runner, CACHE.to_string(), "https://aur.test");
    assert!(source.publication(&candidate("bad;name", "1.0-1"), false).is_err());
    assert_eq!(runner.calls_matching("git"), 0);
}

#[test]
fn repo_dir_joins_the_cache_dir() {
    let runner = ScriptRunner::new();
    let source = AurGitPublicationSource::new(&runner, "/c/aur-git".to_string());
    assert_eq!(source.repo_dir("paru"), "/c/aur-git/paru.git");
    assert_eq!(source.clone_url("paru"), "https://aur.archlinux.org/paru.git");
}

#[test]
fn git_listings_are_parsed_line_by_line() {
    let h = parse_history("aaa 300\nbad\nbbb  200 \nccc x\n");
    assert_eq!(h, vec![("aaa".to_string(), 300), ("bbb".to_string(), 200)]);
    assert_eq!(earliest_timestamp("300\n 100 \nx\n200\n"), Some(100));
    assert_eq!(earliest_timestamp(""), None);
    assert_eq!(pkgver_line("1:2.0-3"), "pkgver=2.0");
    assert_eq!(pkgver_line("2.0"), "pkgver=2.0");
}

#[test]
fn forged_srcinfo_history_fails_safe_to_unknown() {
    // The newer commit claims an earlier time than its parent: tampered.
    let runner = history_runner(&[("aaa", 100, "2.1.0", "2"), ("bbb", 200, "2.1.0", "2")]);
    let source = AurGitPublicationSource::with_base_url(&runner, CACHE.to_string(), "https://aur.test");
    let p = source.publication(&candidate("paru", "2.1.0-2"), false).unwrap();
    assert_eq!(p.published_at, None);
    assert_eq!(p.basis, PublicationBasis::Unknown);
    assert_eq!(runner.calls_matching("show "), 0);
    assert_eq!(runner.calls_matching("-- PKGBUILD"), 0);
}

#[test]
fn forged_pkgbuild_listing_fails_safe_to_unknown() {
    let runner = ScriptRunner::new().on("-- PKGBUILD", 0, "1600000000\n1700000000\n");
    let source = AurGitPublicationSource::with_base_url(&runner, CACHE.to_string(), "https://aur.test");
    let p = source.publication(&candidate("foo", "2.0-3"), false).unwrap();
    assert_eq!(p.published_at, None);
}

#[test]
fn equal_commit_times_are_not_forged() {
    let runner = history_runner(&[("aaa", 200, "2.1.0", "2"), ("bbb", 200, "2.1.0", "1")]);
    let source = AurGitPublicationSource::with_base_url(&runner, CACHE.to_string(), "https://aur.test");
    let p = source.publication(&candidate("paru", "2.1.0-2"), false).unwrap();
    assert_eq!(p.published_at, Some(200));
}

#[test]
fn commit_time_order_checks() {
    assert!(history_is_monotonic(&vec![]));
    assert!(history_is_monotonic(&vec![("a".to_string(), 5)]));
    assert!(history_is_monotonic(&vec![("a".to_string(), 5), ("b".to_string(), 5), ("c".to_string(), 1)]));
    assert!(!history_is_monotonic(&vec![("a".to_string(), 5), ("b".to_string(), 1), ("c".to_string(), 2)]));
    assert_eq!(parse_times("300\n x\n 100 \n"), vec![300, 100]);
    assert!(times_are_monotonic(&vec![300, 100]));
    assert!(!times_are_monotonic(&vec![100, 300]));
    assert_eq!(plausible_earliest("300\n200\n100\n"), Some(100));
    assert_eq!(plausible_earliest("100\n300\n"), None);
    assert_eq!(plausible_earliest(""), None);
}

#[test]
fn git_publication_decides_from_history_versions_and_pkgbuild_time() {
    let h = vec![("aaa".to_string(), 300), ("bbb".to_string(), 200), ("ccc".to_string(), 100)];
    let v = |s: &str| Some(s.to_string());
    // The newest run recording the candidate starts at bbb.
    let vs = vec![v("2.1.0-2"), v("2.1.0-2"), v("2.1.0-1")];
    assert_eq!(
        git_publication(&h, &vs, "2.1.0-2", Some(50)),
        Publication::known(200, PublicationBasis::AurGit)
    );
    // The newest commit records another version: the PKGBUILD time is used.
    let vs = vec![v("2.1.0-3")];
    assert_eq!(
        git_publication(&h, &vs, "2.1.0-2", Some(50)),
        Publication::known(50, PublicationBasis::AurGit)
    );
    assert_eq!(git_publication(&h, &vs, "2.1.0-2", None), Publication::unknown());
    // A commit dated before its own parent: the history is tampered.
    let forged = vec![("aaa".to_string(), 100), ("bbb".to_string(), 200)];
    let vs = vec![v("2.1.0-2"), v("2.1.0-2")];
    assert_eq!(git_publication(&forged, &vs, "2.1.0-2", Some(50)), Publication::unknown());
}

#[test]
fn git_argument_lists() {
    assert_eq!(clone_args("https://aur.test/paru.git", "/c/paru.git"), ["clone", "--bare", "--quiet", "https://aur.test/paru.git", "/c/paru.git"]);
    assert_eq!(fetch_args("/c/paru.git"), ["-C", "/c/paru.git", "fetch", "--quiet", "origin"]);
    assert_eq!(history_args("/c/paru.git"), ["-C", "/c/paru.git", "log", "--format=%H %ct", "--", ".SRCINFO"]);
    assert_eq!(show_args("/c/paru.git", "aaa:.SRCINFO"), ["-C", "/c/paru.git", "show", "aaa:.SRCINFO"]);
    assert_eq!(
        pickaxe_args("/c/paru.git", "pkgver=2.1.0", "PKGBUILD"),
        ["-C", "/c/paru.git", "log", "--format=%ct", "-S", "pkgver=2.1.0", "--", "PKGBUILD"]
    );
}
