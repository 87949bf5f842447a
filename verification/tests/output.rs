use pactience::config::Config;
use pactience::model::{Decision, PackageSource, Publication, PublicationBasis, UpgradeCandidate, Verdict};
use pactience::output::{join_strings, render_hint, render_summary, render_table};

const NOW: i64 = 100 * 86_400;

fn sample_decisions() -> Vec<Decision> {
    vec![
        Decision {
            candidate: UpgradeCandidate {
                name: "linux".to_string(),
                installed_version: "6.8.1-1".to_string(),
                candidate_version: "6.8.2-1".to_string(),
                source: PackageSource::Repo,
            },
            publication: Publication::known(NOW - 10 * 86_400, PublicationBasis::Archive),
            verdict: Verdict::Allow,
            reasons: vec!["published 10d ago, meets 4d minimum (archive)".to_string()],
        },
        Decision {
            candidate: UpgradeCandidate {
                name: "paru-bin".to_string(),
                installed_version: "2.0.3-1".to_string(),
                candidate_version: "2.0.4-1".to_string(),
                source: PackageSource::Aur,
            },
            publication: Publication::unknown(),
            verdict: Verdict::Block,
            reasons: vec!["publication time unknown".to_string()],
        },
    ]
}

#[test]
fn table_contains_all_columns() {
    let table = render_table(&sample_decisions(), NOW, 4, false);
    assert!(table.contains("PACKAGE"));
    assert!(table.contains("VERDICT"));
    assert!(table.contains("linux"));
    assert!(table.contains("6.8.1-1"));
    assert!(table.contains("6.8.2-1"));
    assert!(table.contains("allow"));
    assert!(table.contains("block"));
    assert!(table.contains("10d"));
    assert!(table.contains("unknown"));
    assert!(!table.contains('\x1b'));
}

#[test]
fn colors_mark_verdict_and_age() {
    let table = render_table(&sample_decisions(), NOW, 4, true);
    // Allowed with 10d >= 4d: green verdict, green age. (Cells are padded
    // before painting, so the RESET follows the padding.)
    assert!(table.contains("\x1b[32mallow"));
    assert!(table.contains("\x1b[32m10d"));
    // Blocked: red verdict; unknown age stays uncolored.
    assert!(table.contains("\x1b[31mblock"));
    // Column alignment survives: escape codes never count toward width.
    let plain = render_table(&sample_decisions(), NOW, 4, false);
    let colored_lines: Vec<&str> = table.lines().collect();
    let plain_lines: Vec<&str> = plain.lines().collect();
    assert_eq!(colored_lines.len(), plain_lines.len());
}

#[test]
fn age_color_respects_min_age() {
    // Same 10d-old package: green under a 4d gate, red under a 30d gate.
    assert!(render_table(&sample_decisions(), NOW, 4, true).contains("\x1b[32m10d"));
    assert!(render_table(&sample_decisions(), NOW, 30, true).contains("\x1b[31m10d"));
}

#[test]
fn summary_counts() {
    assert_eq!(
        render_summary(&sample_decisions()),
        "2 upgrade(s): 1 allowed, 1 blocked"
    );
}

#[test]
fn hint_points_at_whitelist_and_aur_heuristic() {
    let hint = render_hint(
        &sample_decisions(),
        &Config::default(),
        "/home/u/.config/pactience/config.toml",
    )
    .expect("blocked packages must produce a hint");
    assert!(hint.contains("1 package(s) blocked"));
    assert!(hint.contains("always_allow"));
    assert!(hint.contains("/home/u/.config/pactience/config.toml"));
    // A blocked AUR package with unknown age triggers the second line.
    assert!(hint.contains("aur_heuristic"));
}

#[test]
fn hint_omits_aur_line_when_heuristic_enabled() {
    let config = Config {
        aur_heuristic: true,
        ..Config::default()
    };
    let hint = render_hint(&sample_decisions(), &config, "/x/config.toml").unwrap();
    assert!(hint.contains("always_allow"));
    assert!(!hint.contains("--aur-heuristic"));
}

#[test]
fn no_hint_when_nothing_blocked() {
    let allowed = vec![Decision {
        verdict: Verdict::Allow,
        ..sample_decisions().into_iter().next().unwrap()
    }];
    assert!(render_hint(&allowed, &Config::default(), "/x").is_none());
}

#[test]
fn table_exact_layout_without_color() {
    let table = render_table(&sample_decisions(), NOW, 4, false);
    let lines: Vec<&str> = table.lines().collect();
    assert_eq!(lines.len(), 4);
    assert!(lines[0].starts_with("PACKAGE   SRC   INSTALLED  CANDIDATE  PUBLISHED   AGE  VERDICT  REASON"));
    assert!(lines[1].starts_with("--------  ----  ---------  ---------  ----------  ---  -------  "));
    assert!(lines[2].starts_with("linux     repo  6.8.1-1    6.8.2-1    1970-04-01  10d  allow    published"));
    assert!(lines[3].starts_with("paru-bin  aur   2.0.3-1    2.0.4-1    unknown     -    block    publication"));
}

#[test]
fn summary_mentions_promotions_only_when_present() {
    let mut ds = sample_decisions();
    ds[1].verdict = Verdict::Promote;
    assert_eq!(render_summary(&ds), "2 upgrade(s): 1 allowed, 1 promoted, 0 blocked");
    assert_eq!(render_summary(&[]), "0 upgrade(s): 0 allowed, 0 blocked");
}

#[test]
fn join_strings_separates_parts() {
    let parts = vec!["a".to_string(), "b".to_string(), "c".to_string()];
    assert_eq!(join_strings(&parts, "; "), "a; b; c");
    assert_eq!(join_strings(&vec![], "; "), "");
}
