//! The decisions one run of the program makes between its input and output
//! steps: the order of the run's stages and what each one leads to, color,
//! counts for the progress notices, which AUR packages to ask the RPC about,
//! and what to say after the plan is built.

use vstd::prelude::*;

use crate::apply::{command_line, PlannedCommand};
use crate::cache::{key_spec, lookup, PublicationCache};
use crate::cli::ColorChoice;
use crate::model::{PackageSource, UpgradeCandidate};
use crate::text::{push_str, string_of};

verus! {

/// Whether the table is colored: always, never, or (`auto`) when stdout is
/// a terminal and `NO_COLOR` is not set.
pub open spec fn color_spec(choice: ColorChoice, stdout_is_terminal: bool, no_color_set: bool) -> bool {
    match choice {
        ColorChoice::Always => true,
        ColorChoice::Never => false,
        ColorChoice::Auto => stdout_is_terminal && !no_color_set,
    }
}

pub fn color_enabled(choice: ColorChoice, stdout_is_terminal: bool, no_color_set: bool) -> (r: bool)
    ensures
        r == color_spec(choice, stdout_is_terminal, no_color_set),
{
    match choice {
        ColorChoice::Always => true,
        ColorChoice::Never => false,
        ColorChoice::Auto => stdout_is_terminal && !no_color_set,
    }
}

/// How many of `cs` come from `source`.
pub open spec fn count_source(cs: Seq<UpgradeCandidate>, source: PackageSource) -> nat
    decreases cs.len(),
{
    if cs.len() == 0 {
        0
    } else {
        count_source(cs.drop_last(), source) + if cs.last().source == source {
            1nat
        } else {
            0nat
        }
    }
}

proof fn lemma_count_sources(cs: Seq<UpgradeCandidate>)
    ensures
        count_source(cs, PackageSource::Repo) + count_source(cs, PackageSource::Aur) == cs.len(),
    decreases cs.len(),
{
    if cs.len() > 0 {
        lemma_count_sources(cs.drop_last());
    }
}

/// Repository and AUR candidate counts.
pub fn source_counts(candidates: &[UpgradeCandidate]) -> (r: (usize, usize))
    ensures
        r.0 == count_source(candidates@, PackageSource::Repo),
        r.1 == count_source(candidates@, PackageSource::Aur),
        r.0 + r.1 == candidates@.len(),
{
    let mut repo: usize = 0;
    let mut aur: usize = 0;
    let n = candidates.len();
    for i in 0..n
        invariant
            n == candidates@.len(),
            repo == count_source(candidates@.take(i as int), PackageSource::Repo),
            aur == count_source(candidates@.take(i as int), PackageSource::Aur),
            repo + aur == i,
    {
        assert(candidates@.take(i + 1).drop_last() == candidates@.take(i as int));
        match candidates[i].source {
            PackageSource::Repo => repo = repo + 1,
            PackageSource::Aur => aur = aur + 1,
        }
    }
    assert(candidates@.take(n as int) == candidates@);
    proof {
        lemma_count_sources(candidates@);
    }
    (repo, aur)
}

/// The names of the AUR candidates, in order.
pub open spec fn aur_names_spec(cs: Seq<UpgradeCandidate>) -> Seq<Seq<char>>
    decreases cs.len(),
{
    if cs.len() == 0 {
        seq![]
    } else if cs.last().source == PackageSource::Aur {
        aur_names_spec(cs.drop_last()).push(cs.last().name@)
    } else {
        aur_names_spec(cs.drop_last())
    }
}

/// The AUR candidates' names: what the RPC multi-info query asks about.
pub fn aur_candidate_names(candidates: &[UpgradeCandidate]) -> (r: Vec<String>)
    ensures
        r@.map_values(|s: String| s@) == aur_names_spec(candidates@),
{
    let mut names: Vec<String> = Vec::new();
    let n = candidates.len();
    for i in 0..n
        invariant
            n == candidates@.len(),
            names@.map_values(|s: String| s@) == aur_names_spec(candidates@.take(i as int)),
    {
        assert(candidates@.take(i + 1).drop_last() == candidates@.take(i as int));
        if candidates[i].source == PackageSource::Aur {
            let ghost before = names@;
            names.push(candidates[i].name.clone());
            assert(names@.map_values(|s: String| s@) == before.map_values(|s: String| s@).push(
                candidates@[i as int].name@,
            ));
        }
    }
    assert(candidates@.take(n as int) == candidates@);
    names
}

/// How many of `cs` the cache answers at `now` under the AUR mode `mode`.
pub open spec fn cached_spec(
    cs: Seq<UpgradeCandidate>,
    m: Map<Seq<char>, crate::cache::CacheEntry>,
    ttl: u64,
    mode: Seq<char>,
    now: i64,
) -> nat
    decreases cs.len(),
{
    if cs.len() == 0 {
        0
    } else {
        let c = cs.last();
        cached_spec(cs.drop_last(), m, ttl, mode, now) + if lookup(
            m,
            key_spec(c.source, c.name@, c.candidate_version@, mode),
            now,
            ttl,
        ) is Some {
            1nat
        } else {
            0nat
        }
    }
}

/// How many candidates the cache already answers: those need no network
/// lookup.
pub fn cached_count(
    candidates: &[UpgradeCandidate],
    cache: &PublicationCache,
    aur_mode: &str,
    now: i64,
) -> (r: usize)
    ensures
        r == cached_spec(candidates@, cache.view_map(), cache.ttl(), aur_mode@, now),
        r <= candidates@.len(),
{
    let mut count: usize = 0;
    let n = candidates.len();
    for i in 0..n
        invariant
            n == candidates@.len(),
            count == cached_spec(
                candidates@.take(i as int),
                cache.view_map(),
                cache.ttl(),
                aur_mode@,
                now,
            ),
            count <= i,
    {
        assert(candidates@.take(i + 1).drop_last() == candidates@.take(i as int));
        let c = &candidates[i];
        let key = PublicationCache::key(
            c.source,
            c.name.as_str(),
            c.candidate_version.as_str(),
            aur_mode,
        );
        if cache.get(key.as_str(), now).is_some() {
            count = count + 1;
        }
    }
    assert(candidates@.take(n as int) == candidates@);
    count
}

/// What the run prints after the report: with `--apply`, either that there
/// is nothing to apply or one `running:` line per command (which then run);
/// without it, a dry-run reminder when there is something to apply and the
/// output is not JSON.
pub open spec fn closing_spec(apply: bool, json: bool, commands: Seq<PlannedCommand>) -> Seq<
    Seq<char>,
> {
    if apply {
        if commands.len() == 0 {
            seq!["Nothing to apply: no upgrade passed the policy."@]
        } else {
            commands.map_values(
                |c: PlannedCommand| "running: "@ + command_line(c@.program, c@.args),
            )
        }
    } else if commands.len() > 0 && !json {
        seq!["dry-run: re-run with --apply to perform the allowed upgrades"@]
    } else {
        seq![]
    }
}

pub fn closing_lines(apply: bool, json: bool, commands: &[PlannedCommand]) -> (r: Vec<String>)
    ensures
        r@.map_values(|s: String| s@) == closing_spec(apply, json, commands@),
{
    let mut lines: Vec<String> = Vec::new();
    if apply {
        if commands.len() == 0 {
            lines.push(string_of("Nothing to apply: no upgrade passed the policy."));
        } else {
            let n = commands.len();
            for i in 0..n
                invariant
                    n == commands@.len(),
                    lines@.map_values(|s: String| s@) == commands@.take(i as int).map_values(
                        |c: PlannedCommand| "running: "@ + command_line(c@.program, c@.args),
                    ),
            {
                let mut line = string_of("running: ");
                let shown = commands[i].display();
                push_str(&mut line, shown.as_str());
                let ghost before = lines@;
                lines.push(line);
                assert(lines@.map_values(|s: String| s@) == before.map_values(|s: String| s@).push(
                    line@,
                ));
                assert(commands@.take(i + 1).map_values(
                    |c: PlannedCommand| "running: "@ + command_line(c@.program, c@.args),
                ) == commands@.take(i as int).map_values(
                    |c: PlannedCommand| "running: "@ + command_line(c@.program, c@.args),
                ).push("running: "@ + command_line(commands@[i as int]@.program, commands@[i as int]@.args)));
            }
            assert(commands@.take(n as int) == commands@);
        }
    } else if commands.len() > 0 && !json {
        lines.push(string_of("dry-run: re-run with --apply to perform the allowed upgrades"));
    }
    lines
}

/// Where a run stands between its steps.
#[derive(Debug, Clone, Copy, PartialEq, Eq, Structural)]
pub enum RunState {
    /// Nothing done yet.
    Start,
    /// The configuration file has been dealt with.
    Configured,
    /// The configuration is loaded; discovery comes next.
    Ready,
    /// Candidates were found; they are evaluated and reported next.
    Evaluating,
    /// The run is over.
    Finished,
}

/// What the program learned at the end of a step.
#[derive(Debug, Clone, Copy, PartialEq, Eq, Structural)]
pub enum RunEvent {
    /// The command line was read: `--clear-cache`, `--set-min-age`, whether
    /// the configuration file exists, and whether its path was given.
    Started { clear_cache: bool, set_min_age: Option<u32>, config_exists: bool, explicit_config: bool },
    /// The configuration file was dealt with: whether `--sources` or
    /// `--json` was given, whether stdin is a terminal, and whether the file
    /// (when it can be read) already records `sources`.
    ConfigSettled { sources_flag: bool, json: bool, interactive: bool, sources_recorded: Option<bool> },
    /// Discovery found `count` candidates.
    CandidatesFound { count: usize },
    /// The plan was built: whether `--apply` was given, and how many
    /// commands the plan holds.
    PlanBuilt { apply: bool, commands: usize },
}

/// What the program does next.
#[derive(Debug, Clone, Copy, PartialEq, Eq, Structural)]
pub enum RunAction {
    /// Clear the cache directory and stop.
    ClearCache,
    /// Write `min_age_days` into the configuration file and stop.
    SetMinAge(u32),
    /// The configuration file exists: use it.
    KeepConfig,
    /// The given configuration file is missing: warn and use the defaults.
    UseDefaults,
    /// The default configuration file is missing: ask for the AUR helper
    /// and create it.
    CreateConfig,
    /// Ask which sources to manage, record the answer, then load the
    /// configuration and discover.
    PromptSources,
    /// Load the configuration and discover.
    LoadConfig,
    /// Report that there are no upgrades (as JSON with `--json`) and stop.
    ReportNoUpgrades,
    /// Resolve publications, evaluate, report and plan.
    Evaluate,
    /// Run the plan's commands and stop.
    Execute,
    /// Stop.
    Stop,
}

/// One step of a run: from where it stands and what was learned, where it
/// goes and what it does. Cache clearing and `--set-min-age` are standalone
/// actions; a missing configuration file is created only at the default
/// path; the sources prompt is asked only of an interactive run without
/// `--sources` or `--json` whose file does not record `sources` yet; a run
/// with no candidates reports that and stops; the plan is executed only
/// with `--apply` and when it holds a command (dry-run by default).
pub open spec fn run_step_spec(state: RunState, event: RunEvent) -> (RunState, RunAction) {
    match (state, event) {
        (
            RunState::Start,
            RunEvent::Started { clear_cache, set_min_age, config_exists, explicit_config },
        ) => if clear_cache {
            (RunState::Finished, RunAction::ClearCache)
        } else if set_min_age is Some {
            (RunState::Finished, RunAction::SetMinAge(set_min_age->0))
        } else if config_exists {
            (RunState::Configured, RunAction::KeepConfig)
        } else if explicit_config {
            (RunState::Configured, RunAction::UseDefaults)
        } else {
            (RunState::Configured, RunAction::CreateConfig)
        },
        (
            RunState::Configured,
            RunEvent::ConfigSettled { sources_flag, json, interactive, sources_recorded },
        ) => if !sources_flag && !json && interactive && sources_recorded == Some(false) {
            (RunState::Ready, RunAction::PromptSources)
        } else {
            (RunState::Ready, RunAction::LoadConfig)
        },
        (RunState::Ready, RunEvent::CandidatesFound { count }) => if count == 0 {
            (RunState::Finished, RunAction::ReportNoUpgrades)
        } else {
            (RunState::Evaluating, RunAction::Evaluate)
        },
        (RunState::Evaluating, RunEvent::PlanBuilt { apply, commands }) => if apply && commands > 0 {
            (RunState::Finished, RunAction::Execute)
        } else {
            (RunState::Finished, RunAction::Stop)
        },
        _ => (RunState::Finished, RunAction::Stop),
    }
}

pub fn run_step(state: RunState, event: RunEvent) -> (r: (RunState, RunAction))
    ensures
        r == run_step_spec(state, event),
{
    match (state, event) {
        (
            RunState::Start,
            RunEvent::Started { clear_cache, set_min_age, config_exists, explicit_config },
        ) => if clear_cache {
            (RunState::Finished, RunAction::ClearCache)
        } else if let Some(days) = set_min_age {
            (RunState::Finished, RunAction::SetMinAge(days))
        } else if config_exists {
            (RunState::Configured, RunAction::KeepConfig)
        } else if explicit_config {
            (RunState::Configured, RunAction::UseDefaults)
        } else {
            (RunState::Configured, RunAction::CreateConfig)
        },
        (
            RunState::Configured,
            RunEvent::ConfigSettled { sources_flag, json, interactive, sources_recorded },
        ) => {
            let unrecorded = match sources_recorded {
                Some(recorded) => !recorded,
                None => false,
            };
            if !sources_flag && !json && interactive && unrecorded {
                (RunState::Ready, RunAction::PromptSources)
            } else {
                (RunState::Ready, RunAction::LoadConfig)
            }
        },
        (RunState::Ready, RunEvent::CandidatesFound { count }) => if count == 0 {
            (RunState::Finished, RunAction::ReportNoUpgrades)
        } else {
            (RunState::Evaluating, RunAction::Evaluate)
        },
        (RunState::Evaluating, RunEvent::PlanBuilt { apply, commands }) => if apply && commands > 0 {
            (RunState::Finished, RunAction::Execute)
        } else {
            (RunState::Finished, RunAction::Stop)
        },
        _ => (RunState::Finished, RunAction::Stop),
    }
}

/// Dry-run by default: a run executes its plan only at the step after the
/// plan was built, only with `--apply`, and only when the plan holds a
/// command; after executing it stops.
pub proof fn lemma_dry_run_by_default(state: RunState, event: RunEvent)
    ensures
        run_step_spec(state, event).1 == RunAction::Execute ==> state == RunState::Evaluating
            && (event matches RunEvent::PlanBuilt { apply, commands } && apply && commands > 0)
            && run_step_spec(state, event).0 == RunState::Finished,
{
}

/// The sources prompt is asked only on the step from `Configured` to
/// `Ready` (so at most once per run), and never of a run given `--sources`
/// or `--json`, of a non-interactive one, or when the configuration file
/// already records `sources` or cannot be read.
pub proof fn lemma_sources_prompt_only_when_unanswered(state: RunState, event: RunEvent)
    ensures
        run_step_spec(state, event).1 == RunAction::PromptSources ==> state == RunState::Configured
            && run_step_spec(state, event).0 == RunState::Ready && (event matches RunEvent::ConfigSettled {
            sources_flag,
            json,
            interactive,
            sources_recorded,
        } && !sources_flag && !json && interactive && sources_recorded == Some(false)),
{
}

/// A finished run does nothing more.
pub proof fn lemma_finished_runs_stop(event: RunEvent)
    ensures
        run_step_spec(RunState::Finished, event) == (RunState::Finished, RunAction::Stop),
{
}

} // verus!
