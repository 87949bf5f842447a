//! The options of one invocation, as the command line gives them.

use vstd::prelude::*;

use crate::config::{AurHelper, DependencyPolicy};
use crate::model::PackageSource;
use crate::text::string_of;

verus! {

/// Color output mode for `--color`.
#[derive(Debug, Clone, Copy, PartialEq, Eq, Structural)]
pub enum ColorChoice {
    Auto,
    Always,
    Never,
}

/// Enforce a minimum package age before upgrading Arch Linux packages.
#[derive(Debug, Clone)]
pub struct Cli {
    /// Perform the safe upgrade set with pacman and the configured AUR
    /// helper. Without this flag the tool only reports what it would do
    /// (dry-run).
    pub apply: bool,
    /// Emit machine-readable JSON instead of the summary table.
    pub json: bool,
    /// Path to the configuration file.
    pub config: Option<String>,
    /// Minimum package age in days required before a package may be upgraded.
    pub min_age_days: Option<u32>,
    /// Persist this many days as `min_age_days` in the configuration file,
    /// then exit.
    pub set_min_age: Option<u32>,
    /// How to handle upgrades that require younger dependencies.
    pub dependency_policy: Option<DependencyPolicy>,
    /// Use the AUR `LastModified` field as a heuristic publication time.
    pub aur_heuristic: bool,
    /// Allow upgrades whose publication time could not be determined.
    pub allow_unknown: bool,
    /// Disable the AUR git-history lookup.
    pub no_aur_git: bool,
    /// AUR helper used to discover and apply AUR upgrades.
    pub aur_helper: Option<AurHelper>,
    /// Which package sources to manage for this run.
    pub sources: Option<Vec<PackageSource>>,
    /// Diagnostic verbosity: how often `-v` was given.
    pub verbose: u8,
    /// Suppress all diagnostics except errors.
    pub quiet: bool,
    /// When to use ANSI colors in the table output.
    pub color: ColorChoice,
    /// Print only the summary line (and hints), without the table.
    pub summary_only: bool,
    /// Remove the entire cache directory, then exit.
    pub clear_cache: bool,
}

impl Default for Cli {
    /// No flags given.
    fn default() -> (r: Self)
        ensures
            !r.apply && !r.json && r.config is None && r.min_age_days is None
                && r.set_min_age is None && r.dependency_policy is None && !r.aur_heuristic
                && !r.allow_unknown && !r.no_aur_git && r.aur_helper is None && r.sources is None
                && r.verbose == 0 && !r.quiet && r.color == ColorChoice::Auto && !r.summary_only
                && !r.clear_cache,
    {
        Cli {
            apply: false,
            json: false,
            config: None,
            min_age_days: None,
            set_min_age: None,
            dependency_policy: None,
            aur_heuristic: false,
            allow_unknown: false,
            no_aur_git: false,
            aur_helper: None,
            sources: None,
            verbose: 0,
            quiet: false,
            color: ColorChoice::Auto,
            summary_only: false,
            clear_cache: false,
        }
    }
}

/// The first pair of flags given together that cannot be combined:
/// `--quiet` with `--verbose`, `--set-min-age` with `--min-age-days`, and
/// `--summary-only` with `--json`.
pub open spec fn conflict_spec(cli: Cli) -> Option<Seq<char>> {
    if cli.quiet && cli.verbose > 0 {
        Some("the argument '--quiet' cannot be used with '--verbose'"@)
    } else if cli.set_min_age is Some && cli.min_age_days is Some {
        Some("the argument '--set-min-age' cannot be used with '--min-age-days'"@)
    } else if cli.summary_only && cli.json {
        Some("the argument '--summary-only' cannot be used with '--json'"@)
    } else {
        None
    }
}

impl Cli {
    /// Why these options cannot be used together, if they cannot.
    pub fn conflict(&self) -> (r: Option<String>)
        ensures
            match r {
                Some(m) => conflict_spec(*self) == Some(m@),
                None => conflict_spec(*self) is None,
            },
    {
        if self.quiet && self.verbose > 0 {
            Some(string_of("the argument '--quiet' cannot be used with '--verbose'"))
        } else if self.set_min_age.is_some() && self.min_age_days.is_some() {
            Some(string_of("the argument '--set-min-age' cannot be used with '--min-age-days'"))
        } else if self.summary_only && self.json {
            Some(string_of("the argument '--summary-only' cannot be used with '--json'"))
        } else {
            None
        }
    }
}

} // verus!
