use pactience::apply::PlannedCommand;
use pactience::cache::PublicationCache;
use pactience::cli::ColorChoice;
use pactience::model::{PackageSource, Publication, UpgradeCandidate};
use pactience::run::{
    aur_candidate_names, cached_count, closing_lines, color_enabled, run_step, source_counts,
    RunAction, RunEvent, RunState,
};

fn candidate(name: &str, source: PackageSource) -> UpgradeCandidate {
    UpgradeCandidate {
        name: name.to_string(),
        installed_version: "1-1".to_string(),
        candidate_version: "2-1".to_string(),
        source,
    }
}

#[test]
fn color_follows_the_choice_and_terminal() {
    assert!(color_enabled(ColorChoice::Always, false, true));
    assert!(!color_enabled(ColorChoice::Never, true, false));
    assert!(color_enabled(ColorChoice::Auto, true, false));
    assert!(!color_enabled(ColorChoice::Auto, true, true));
    assert!(!color_enabled(ColorChoice::Auto, false, false));
}

#[test]
fn counts_and_aur_names() {
    let cs = vec![
        candidate("linux", PackageSource::Repo),
        candidate("paru-bin", PackageSource::Aur),
        candidate("yay-bin", PackageSource::Aur),
    ];
    assert_eq!(source_counts(&cs), (1, 2));
    assert_eq!(aur_candidate_names(&cs), vec!["paru-bin".to_string(), "yay-bin".to_string()]);
    let mut cache = PublicationCache::new("/x.json", 60);
    cache.insert(
        PublicationCache::key(PackageSource::Aur, "paru-bin", "2-1", "g"),
        &Publication::unknown(),
        100,
    );
    assert_eq!(cached_count(&cs, &cache, "g", 110), 1);
    assert_eq!(cached_count(&cs, &cache, "", 110), 0);
    assert_eq!(cached_count(&cs, &cache, "g", 1000), 0);
}

#[test]
fn closing_lines_for_apply_and_dry_run() {
    let cmds = vec![PlannedCommand {
        program: "sudo".into(),
        args: vec!["pacman".into(), "-S".into(), "linux".into()],
    }];
    assert_eq!(closing_lines(true, false, &cmds), vec!["running: sudo pacman -S linux".to_string()]);
    assert_eq!(
        closing_lines(true, false, &[]),
        vec!["Nothing to apply: no upgrade passed the policy.".to_string()]
    );
    assert_eq!(
        closing_lines(false, false, &cmds),
        vec!["dry-run: re-run with --apply to perform the allowed upgrades".to_string()]
    );
    assert!(closing_lines(false, true, &cmds).is_empty());
    assert!(closing_lines(false, false, &[]).is_empty());
}

fn started(clear_cache: bool, set_min_age: Option<u32>, config_exists: bool, explicit_config: bool) -> RunEvent {
    RunEvent::Started { clear_cache, set_min_age, config_exists, explicit_config }
}

#[test]
fn first_step_handles_standalone_actions_and_the_config_file() {
    assert_eq!(run_step(RunState::Start, started(true, Some(3), true, false)), (RunState::Finished, RunAction::ClearCache));
    assert_eq!(run_step(RunState::Start, started(false, Some(3), false, false)), (RunState::Finished, RunAction::SetMinAge(3)));
    assert_eq!(run_step(RunState::Start, started(false, None, true, true)), (RunState::Configured, RunAction::KeepConfig));
    assert_eq!(run_step(RunState::Start, started(false, None, false, true)), (RunState::Configured, RunAction::UseDefaults));
    assert_eq!(run_step(RunState::Start, started(false, None, false, false)), (RunState::Configured, RunAction::CreateConfig));
}

#[test]
fn sources_prompt_only_for_interactive_runs_without_a_recorded_answer() {
    let settled = |sources_flag, json, interactive, sources_recorded| RunEvent::ConfigSettled {
        sources_flag,
        json,
        interactive,
        sources_recorded,
    };
    assert_eq!(run_step(RunState::Configured, settled(false, false, true, Some(false))), (RunState::Ready, RunAction::PromptSources));
    for event in [
        settled(true, false, true, Some(false)),
        settled(false, true, true, Some(false)),
        settled(false, false, false, Some(false)),
        settled(false, false, true, Some(true)),
        settled(false, false, true, None),
    ] {
        assert_eq!(run_step(RunState::Configured, event), (RunState::Ready, RunAction::LoadConfig));
    }
}

#[test]
fn no_candidates_are_reported_and_the_plan_runs_only_with_apply() {
    assert_eq!(run_step(RunState::Ready, RunEvent::CandidatesFound { count: 0 }), (RunState::Finished, RunAction::ReportNoUpgrades));
    assert_eq!(run_step(RunState::Ready, RunEvent::CandidatesFound { count: 2 }), (RunState::Evaluating, RunAction::Evaluate));
    assert_eq!(run_step(RunState::Evaluating, RunEvent::PlanBuilt { apply: true, commands: 2 }), (RunState::Finished, RunAction::Execute));
    assert_eq!(run_step(RunState::Evaluating, RunEvent::PlanBuilt { apply: false, commands: 2 }), (RunState::Finished, RunAction::Stop));
    assert_eq!(run_step(RunState::Evaluating, RunEvent::PlanBuilt { apply: true, commands: 0 }), (RunState::Finished, RunAction::Stop));
    assert_eq!(run_step(RunState::Finished, RunEvent::PlanBuilt { apply: true, commands: 2 }), (RunState::Finished, RunAction::Stop));
}
