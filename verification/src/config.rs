//! Configuration: the options of `~/.config/pactience/config.toml`, their
//! defaults, and how file values and command-line overrides combine.

use vstd::prelude::*;

use crate::apply::{debug_quoted, is_valid_package_name, quoted, valid_name};
use crate::cli::Cli;
use crate::error::{Error, Result};
use crate::model::PackageSource;
use crate::text::{chars_of, join_path, path_join, push_char, push_str, push_u64, slice_chars,
    starts_with, starts_with_exec, str_eq, string_from_chars, string_of, trim, trim_chars,
    trim_start, trim_start_chars, decimal};

verus! {

/// How to resolve conflicts between the age policy and dependency
/// requirements.
#[derive(Debug, Clone, Copy, PartialEq, Eq, Structural)]
pub enum DependencyPolicy {
    /// Automatically promote younger dependencies required by allowed
    /// upgrades (default).
    DependencyRespecting,
    /// Never promote; block any upgrade whose dependency requirements are
    /// not satisfied by installed packages or age-allowed candidates.
    StrictClosure,
}

impl DependencyPolicy {
    /// The label shown in reports (`Display`).
    pub open spec fn label(self) -> Seq<char> {
        match self {
            DependencyPolicy::DependencyRespecting => "dependency-respecting"@,
            DependencyPolicy::StrictClosure => "strict-closure"@,
        }
    }

    pub fn as_str(&self) -> (r: &'static str)
        ensures
            r@ == self.label(),
    {
        match self {
            DependencyPolicy::DependencyRespecting => "dependency-respecting",
            DependencyPolicy::StrictClosure => "strict-closure",
        }
    }
}

/// AUR helper used to discover (`-Qua`) and apply (`-S`) AUR upgrades.
#[derive(Debug, Clone, Copy, PartialEq, Eq, Structural)]
pub enum AurHelper {
    /// paru (default).
    Paru,
    /// yay.
    Yay,
    /// Disable AUR handling entirely: no AUR discovery, no AUR upgrades.
    Disabled,
}

impl AurHelper {
    /// The label shown in reports (`Display`).
    pub open spec fn label(self) -> Seq<char> {
        match self {
            AurHelper::Paru => "paru"@,
            AurHelper::Yay => "yay"@,
            AurHelper::Disabled => "none"@,
        }
    }

    /// The executable, or `None` when AUR handling is disabled.
    pub open spec fn program_spec(self) -> Option<Seq<char>> {
        match self {
            AurHelper::Paru => Some("paru"@),
            AurHelper::Yay => Some("yay"@),
            AurHelper::Disabled => None,
        }
    }

    pub fn as_str(&self) -> (r: &'static str)
        ensures
            r@ == self.label(),
    {
        match self {
            AurHelper::Paru => "paru",
            AurHelper::Yay => "yay",
            AurHelper::Disabled => "none",
        }
    }

    /// Executable name, or `None` when AUR handling is disabled.
    pub fn program(&self) -> (r: Option<&'static str>)
        ensures
            match r {
                Some(p) => self.program_spec() == Some(p@),
                None => self.program_spec() is None,
            },
    {
        match self {
            AurHelper::Paru => Some("paru"),
            AurHelper::Yay => Some("yay"),
            AurHelper::Disabled => None,
        }
    }
}

/// Effective configuration after merging file values with CLI overrides.
#[derive(Debug, Clone, PartialEq, Eq)]
pub struct Config {
    pub min_age_days: u32,
    pub always_allow: Vec<String>,
    pub always_block: Vec<String>,
    pub dependency_policy: DependencyPolicy,
    /// How long a *negative* cache entry ("publication unknown") stays valid.
    /// Positive results are immutable facts and never expire.
    pub cache_ttl_secs: u64,
    pub allow_unknown: bool,
    pub aur_heuristic: bool,
    /// Look up accurate per-version dates from AUR git history (default on).
    pub aur_git: bool,
    /// AUR helper used for discovery and upgrades.
    pub aur_helper: AurHelper,
    /// Package sources this tool manages.
    pub sources: Vec<PackageSource>,
}

/// The names in a list of strings.
pub open spec fn names_of(v: Seq<String>) -> Seq<Seq<char>> {
    v.map_values(|s: String| s@)
}

impl Config {
    /// The built-in defaults.
    pub open spec fn is_default(self) -> bool {
        &&& self.min_age_days == 4
        &&& self.always_allow@.len() == 0
        &&& self.always_block@.len() == 0
        &&& self.dependency_policy == DependencyPolicy::DependencyRespecting
        &&& self.cache_ttl_secs == 86_400
        &&& !self.allow_unknown
        &&& !self.aur_heuristic
        &&& self.aur_git
        &&& self.aur_helper == AurHelper::Paru
        &&& self.sources@ == seq![PackageSource::Repo, PackageSource::Aur]
    }
}

impl Default for Config {
    fn default() -> (r: Self)
        ensures
            r.is_default(),
    {
        Config {
            min_age_days: 4,
            always_allow: Vec::new(),
            always_block: Vec::new(),
            dependency_policy: DependencyPolicy::DependencyRespecting,
            cache_ttl_secs: 86_400,
            allow_unknown: false,
            aur_heuristic: false,
            aur_git: true,
            aur_helper: AurHelper::Paru,
            sources: vec![PackageSource::Repo, PackageSource::Aur],
        }
    }
}


/// Raw configuration-file values; every field is optional so users only
/// specify what they want to change.
#[derive(Debug, Clone)]
pub struct FileConfig {
    pub min_age_days: Option<u32>,
    pub always_allow: Option<Vec<String>>,
    pub always_block: Option<Vec<String>>,
    pub dependency_policy: Option<DependencyPolicy>,
    pub cache_ttl_secs: Option<u64>,
    pub allow_unknown: Option<bool>,
    pub aur_heuristic: Option<bool>,
    pub aur_git: Option<bool>,
    pub aur_helper: Option<AurHelper>,
    pub sources: Option<Vec<PackageSource>>,
}

impl Default for FileConfig {
    /// A file that sets nothing.
    fn default() -> (r: Self)
        ensures
            r.min_age_days is None && r.always_allow is None && r.always_block is None
                && r.dependency_policy is None && r.cache_ttl_secs is None && r.allow_unknown is None
                && r.aur_heuristic is None && r.aur_git is None && r.aur_helper is None
                && r.sources is None,
    {
        FileConfig {
            min_age_days: None,
            always_allow: None,
            always_block: None,
            dependency_policy: None,
            cache_ttl_secs: None,
            allow_unknown: None,
            aur_heuristic: None,
            aur_git: None,
            aur_helper: None,
            sources: None,
        }
    }
}

/// `o`'s value if it has one, else `d`.
pub open spec fn or_keep<T>(o: Option<T>, d: T) -> T {
    match o {
        Some(v) => v,
        None => d,
    }
}

/// What a configuration file turned out to hold.
pub enum ConfigFile {
    /// There is no file.
    Missing,
    /// The file could not be read; the text describes why.
    Unreadable(String),
    /// The file is not valid configuration; the text describes why.
    Invalid(String),
    /// The values the file sets.
    Parsed(FileConfig),
}

/// The maximum accepted `min_age_days`.
pub open spec fn max_min_age() -> u32 {
    3650
}

/// The first name of `names` that is not a valid package name.
pub open spec fn first_invalid(names: Seq<String>) -> Option<Seq<char>>
    decreases names.len(),
{
    if names.len() == 0 {
        None
    } else {
        match first_invalid(names.drop_last()) {
            Some(n) => Some(n),
            None => if valid_name(names.last()@) {
                None
            } else {
                Some(names.last()@)
            },
        }
    }
}

/// The first invalid name among `names`, if any.
fn find_invalid(names: &Vec<String>, start: Ghost<Seq<String>>) -> (r: Option<usize>)
    ensures
        match r {
            Some(i) => i < names@.len() && first_invalid(start@ + names@) == Some(names@[i as int]@)
                || first_invalid(start@) is Some,
            None => first_invalid(start@ + names@) == first_invalid(start@),
        },
{
    let n = names.len();
    for i in 0..n
        invariant
            n == names@.len(),
            first_invalid(start@ + names@.take(i as int)) == first_invalid(start@),
    {
        assert((start@ + names@.take(i + 1)).drop_last() == start@ + names@.take(i as int));
        assert((start@ + names@.take(i + 1)).last() == names@[i as int]);
        if !is_valid_package_name(names[i].as_str()) {
            proof {
                lemma_first_invalid_extend(start@ + names@.take(i + 1), names@.skip(i + 1));
                assert(start@ + names@.take(i + 1) + names@.skip(i + 1) == start@ + names@);
            }
            return Some(i);
        }
    }
    assert(names@.take(n as int) == names@);
    None
}

/// A name found invalid in a prefix stays the first invalid name.
proof fn lemma_first_invalid_extend(a: Seq<String>, b: Seq<String>)
    requires
        first_invalid(a) is Some,
    ensures
        first_invalid(a + b) == first_invalid(a),
    decreases b.len(),
{
    if b.len() > 0 {
        lemma_first_invalid_extend(a, b.drop_last());
        assert((a + b).drop_last() == a + b.drop_last());
    } else {
        assert(a + b == a);
    }
}

/// The abstract value of a [`Config`].
pub struct ConfigView {
    pub min_age_days: u32,
    pub always_allow: Seq<Seq<char>>,
    pub always_block: Seq<Seq<char>>,
    pub dependency_policy: DependencyPolicy,
    pub cache_ttl_secs: u64,
    pub allow_unknown: bool,
    pub aur_heuristic: bool,
    pub aur_git: bool,
    pub aur_helper: AurHelper,
    pub sources: Seq<PackageSource>,
}

impl View for Config {
    type V = ConfigView;

    open spec fn view(&self) -> ConfigView {
        ConfigView {
            min_age_days: self.min_age_days,
            always_allow: names_of(self.always_allow@),
            always_block: names_of(self.always_block@),
            dependency_policy: self.dependency_policy,
            cache_ttl_secs: self.cache_ttl_secs,
            allow_unknown: self.allow_unknown,
            aur_heuristic: self.aur_heuristic,
            aur_git: self.aur_git,
            aur_helper: self.aur_helper,
            sources: self.sources@,
        }
    }
}

/// The built-in defaults.
pub open spec fn default_view() -> ConfigView {
    ConfigView {
        min_age_days: 4,
        always_allow: seq![],
        always_block: seq![],
        dependency_policy: DependencyPolicy::DependencyRespecting,
        cache_ttl_secs: 86_400,
        allow_unknown: false,
        aur_heuristic: false,
        aur_git: true,
        aur_helper: AurHelper::Paru,
        sources: seq![PackageSource::Repo, PackageSource::Aur],
    }
}

/// `c` with every value the file sets replaced.
pub open spec fn merged_file(c: ConfigView, file: FileConfig) -> ConfigView {
    ConfigView {
        min_age_days: or_keep(file.min_age_days, c.min_age_days),
        always_allow: match file.always_allow {
            Some(v) => names_of(v@),
            None => c.always_allow,
        },
        always_block: match file.always_block {
            Some(v) => names_of(v@),
            None => c.always_block,
        },
        dependency_policy: or_keep(file.dependency_policy, c.dependency_policy),
        cache_ttl_secs: or_keep(file.cache_ttl_secs, c.cache_ttl_secs),
        allow_unknown: or_keep(file.allow_unknown, c.allow_unknown),
        aur_heuristic: or_keep(file.aur_heuristic, c.aur_heuristic),
        aur_git: or_keep(file.aur_git, c.aur_git),
        aur_helper: or_keep(file.aur_helper, c.aur_helper),
        sources: match file.sources {
            Some(v) => v@,
            None => c.sources,
        },
    }
}

/// `c` with the command-line overrides applied.
pub open spec fn merged_cli(c: ConfigView, cli: Cli) -> ConfigView {
    ConfigView {
        min_age_days: or_keep(cli.min_age_days, c.min_age_days),
        dependency_policy: or_keep(cli.dependency_policy, c.dependency_policy),
        aur_heuristic: c.aur_heuristic || cli.aur_heuristic,
        allow_unknown: c.allow_unknown || cli.allow_unknown,
        aur_git: c.aur_git && !cli.no_aur_git,
        aur_helper: or_keep(cli.aur_helper, c.aur_helper),
        sources: match cli.sources {
            Some(v) => v@,
            None => c.sources,
        },
        ..c
    }
}

/// The first name of `names` that is not a valid package name.
pub open spec fn first_invalid_view(names: Seq<Seq<char>>) -> Option<Seq<char>>
    decreases names.len(),
{
    if names.len() == 0 {
        None
    } else {
        match first_invalid_view(names.drop_last()) {
            Some(n) => Some(n),
            None => if valid_name(names.last()) {
                None
            } else {
                Some(names.last())
            },
        }
    }
}

/// Why a configuration is rejected, if it is.
pub open spec fn config_error(c: ConfigView) -> Option<Seq<char>> {
    if c.min_age_days > max_min_age() {
        Some("min_age_days="@ + decimal(c.min_age_days as nat) + " is unreasonably large"@)
    } else {
        match first_invalid_view(c.always_allow + c.always_block) {
            Some(n) => Some("invalid package name in allow/block list: "@ + debug_quoted(n)),
            None => None,
        }
    }
}

proof fn lemma_first_invalid_views(names: Seq<String>)
    ensures
        first_invalid(names) == first_invalid_view(names_of(names)),
    decreases names.len(),
{
    if names.len() > 0 {
        lemma_first_invalid_views(names.drop_last());
        assert(names_of(names).drop_last() == names_of(names.drop_last()));
    }
}

/// Replace `slot` by `value` when there is one.
fn override_with<T>(slot: &mut T, value: Option<T>)
    ensures
        *final(slot) == or_keep(value, *old(slot)),
{
    if let Some(v) = value {
        *slot = v;
    }
}

fn copy_sources(v: &Vec<PackageSource>) -> (r: Vec<PackageSource>)
    ensures
        r@ == v@,
{
    let mut copy: Vec<PackageSource> = Vec::new();
    let n = v.len();
    for i in 0..n
        invariant
            n == v@.len(),
            copy@ == v@.take(i as int),
    {
        copy.push(v[i]);
    }
    assert(v@.take(n as int) == v@);
    copy
}

impl Config {
    /// Apply the values a configuration file sets.
    pub fn merge_file(&mut self, file: FileConfig)
        ensures
            final(self)@ == merged_file(old(self)@, file),
    {
        let ghost f = file;
        override_with(&mut self.min_age_days, file.min_age_days);
        override_with(&mut self.always_allow, file.always_allow);
        override_with(&mut self.always_block, file.always_block);
        override_with(&mut self.dependency_policy, file.dependency_policy);
        override_with(&mut self.cache_ttl_secs, file.cache_ttl_secs);
        override_with(&mut self.allow_unknown, file.allow_unknown);
        override_with(&mut self.aur_heuristic, file.aur_heuristic);
        override_with(&mut self.aur_git, file.aur_git);
        override_with(&mut self.aur_helper, file.aur_helper);
        override_with(&mut self.sources, file.sources);
        assert(self@ =~= merged_file(old(self)@, f));
    }

    /// CLI flags win over the configuration file.
    pub fn merge_cli(&mut self, cli: &Cli)
        ensures
            final(self)@ == merged_cli(old(self)@, *cli),
    {
        override_with(&mut self.min_age_days, cli.min_age_days);
        override_with(&mut self.dependency_policy, cli.dependency_policy);
        if cli.aur_heuristic {
            self.aur_heuristic = true;
        }
        if cli.allow_unknown {
            self.allow_unknown = true;
        }
        if cli.no_aur_git {
            self.aur_git = false;
        }
        override_with(&mut self.aur_helper, cli.aur_helper);
        let sources = match &cli.sources {
            Some(v) => Some(copy_sources(v)),
            None => None,
        };
        override_with(&mut self.sources, sources);
        assert(self@ =~= merged_cli(old(self)@, *cli));
    }

    /// Reject an unreasonably large minimum age and invalid package names in
    /// the allow and block lists.
    pub fn validate(&self, path: &str) -> (r: Result<()>)
        ensures
            match config_error(self@) {
                None => r is Ok,
                Some(m) => r matches Err(Error::Config { path: p, message }) && p@ == path@
                    && message@ == m,
            },
    {
        if self.min_age_days > 3650 {
            let mut m = string_of("min_age_days=");
            push_u64(&mut m, self.min_age_days as u64);
            push_str(&mut m, " is unreasonably large");
            return Err(Error::config(path, m.as_str()));
        }
        proof {
            lemma_first_invalid_views(self.always_allow@ + self.always_block@);
            assert(names_of(self.always_allow@ + self.always_block@) == names_of(self.always_allow@)
                + names_of(self.always_block@));
            assert(Seq::<String>::empty() + self.always_allow@ == self.always_allow@);
        }
        let found = match find_invalid(&self.always_allow, Ghost(Seq::empty())) {
            Some(i) => {
                proof {
                    lemma_first_invalid_extend(self.always_allow@, self.always_block@);
                }
                Some(&self.always_allow[i])
            },
            None => match find_invalid(&self.always_block, Ghost(self.always_allow@)) {
                Some(i) => Some(&self.always_block[i]),
                None => None,
            },
        };
        match found {
            Some(name) => {
                let mut m = string_of("invalid package name in allow/block list: ");
                let q = quoted(name.as_str());
                push_str(&mut m, q.as_str());
                Err(Error::config(path, m.as_str()))
            },
            None => Ok(()),
        }
    }

    /// Load configuration from what the file at `path` holds (a missing file
    /// means defaults), then apply CLI overrides and validate.
    pub fn load(path: &str, file: ConfigFile, cli: &Cli) -> (r: Result<Config>)
        ensures
            match file {
                ConfigFile::Unreadable(e) => r matches Err(Error::Io { path: p, message }) && p@
                    == path@ && message@ == e@,
                ConfigFile::Invalid(e) => r matches Err(Error::Config { path: p, message }) && p@
                    == path@ && message@ == e@,
                ConfigFile::Missing => {
                    let c = merged_cli(default_view(), *cli);
                    match config_error(c) {
                        None => r matches Ok(v) && v@ == c,
                        Some(m) => r matches Err(Error::Config { path: p, message }) && p@ == path@
                            && message@ == m,
                    }
                },
                ConfigFile::Parsed(f) => {
                    let c = merged_cli(merged_file(default_view(), f), *cli);
                    match config_error(c) {
                        None => r matches Ok(v) && v@ == c,
                        Some(m) => r matches Err(Error::Config { path: p, message }) && p@ == path@
                            && message@ == m,
                    }
                },
            },
    {
        let mut config = Config::default();
        assert(names_of(config.always_allow@) =~= Seq::<Seq<char>>::empty());
        assert(names_of(config.always_block@) =~= Seq::<Seq<char>>::empty());
        assert(config@ =~= default_view());
        match file {
            ConfigFile::Missing => {},
            ConfigFile::Unreadable(e) => {
                return Err(Error::io(path, e.as_str()));
            },
            ConfigFile::Invalid(e) => {
                return Err(Error::config(path, e.as_str()));
            },
            ConfigFile::Parsed(f) => {
                config.merge_file(f);
            },
        }
        config.merge_cli(cli);
        match config.validate(path) {
            Ok(()) => Ok(config),
            Err(e) => Err(e),
        }
    }
}

/// Template written on first execution when the default config file is
/// missing. Every option is commented out: the file documents the available
/// settings while behavior stays at defaults until the user edits it.
pub const CONFIG_TEMPLATE: &'static str = "# pactience configuration
#
# Every option is commented out, so this file is documentation until you
# uncomment and change something. CLI flags always win over this file.

# Minimum age (in days) a package version must have before it may be
# upgraded. Versions younger than this are blocked.
# min_age_days = 4

# Whitelist: packages that are always upgraded, regardless of age.
# always_allow = [\"linux\", \"firefox\"]

# Blacklist: packages that are never upgraded. They cannot be promoted as
# dependencies either; packages needing them are blocked instead.
# always_block = [\"glibc\"]

# What to do when an allowed upgrade requires a younger dependency:
#   \"dependency-respecting\"  (default) promote the younger dependency into
#                                      the upgrade set
#   \"strict-closure\"         never promote; block the dependent package
# dependency_policy = \"dependency-respecting\"

# How long (seconds) a \"publication unknown\" cache entry stays valid before
# it is looked up again. Positive results are historical facts and never
# expire.
# cache_ttl_secs = 86400

# Allow upgrades whose publication time could not be determined.
# Default false: unknown age means block.
# allow_unknown = false

# AUR has no official per-version publication date. Gate AUR packages by the
# RPC LastModified field (heuristic: any PKGBUILD edit refreshes it).
# Default false.
# aur_heuristic = false

# Look up accurate per-version dates from each AUR package's git history
# (one small bare clone per package, cached and only fetched afterwards).
# Default true.
# aur_git = true

# AUR helper used to discover and apply AUR upgrades: \"paru\" (default),
# \"yay\", or \"none\" to disable AUR handling entirely.
# aur_helper = \"paru\"

# Package sources to manage: [\"repo\", \"aur\"] (default), [\"repo\"] or
# [\"aur\"]. The commands of a skipped source are never run.
# sources = [\"repo\", \"aur\"]
";

/// The file written on first run: the template, then the chosen AUR helper
/// as an active setting.
pub fn config_with_helper(helper: AurHelper) -> (r: String)
    ensures
        r@ == CONFIG_TEMPLATE@ + "\n# Chosen on first run.\naur_helper = \""@ + helper.label()
            + "\"\n"@,
{
    let mut s = string_of(CONFIG_TEMPLATE);
    push_str(&mut s, "\n# Chosen on first run.\naur_helper = \"");
    push_str(&mut s, helper.as_str());
    push_str(&mut s, "\"\n");
    s
}

/// Probe for a supported AUR helper via `available` (an executable-presence
/// check). paru wins when both are installed.
pub fn detect_aur_helper_with<F: Fn(&str) -> bool>(available: F) -> (r: Option<AurHelper>)
    requires
        forall|s: &str| call_requires(available, (s,)),
    ensures
        r == Some(AurHelper::Paru) ==> call_ensures(available, ("paru",), true),
        r == Some(AurHelper::Yay) ==> call_ensures(available, ("paru",), false) && call_ensures(
            available,
            ("yay",),
            true,
        ),
        r is None ==> call_ensures(available, ("paru",), false) && call_ensures(
            available,
            ("yay",),
            false,
        ),
        r != Some(AurHelper::Disabled),
{
    if available("paru") {
        Some(AurHelper::Paru)
    } else if available("yay") {
        Some(AurHelper::Yay)
    } else {
        None
    }
}

/// `s` with ASCII letters lowercased (`str::to_ascii_lowercase`).
pub open spec fn ascii_lower(s: Seq<char>) -> Seq<char> {
    s.map_values(|c: char| if 'A' <= c <= 'Z' {
        ((c as u32) + 32) as char
    } else {
        c
    })
}

/// The helper a first-run answer selects: `Ok(None)` for an empty answer
/// (take the default), `Err` for an unrecognized one.
pub open spec fn helper_choice(input: Seq<char>) -> core::result::Result<Option<AurHelper>, ()> {
    let a = ascii_lower(trim(input));
    if a.len() == 0 {
        Ok(None)
    } else if a == "1"@ || a == "paru"@ {
        Ok(Some(AurHelper::Paru))
    } else if a == "2"@ || a == "yay"@ {
        Ok(Some(AurHelper::Yay))
    } else if a == "3"@ || a == "none"@ {
        Ok(Some(AurHelper::Disabled))
    } else {
        Err(())
    }
}

/// `input` trimmed, with ASCII letters lowercased.
fn trimmed_lowercase(input: &str) -> (r: Vec<char>)
    ensures
        r@ == ascii_lower(trim(input@)),
{
    let t = trim_chars(&chars_of(input));
    let mut lower: Vec<char> = Vec::new();
    let n = t.len();
    for i in 0..n
        invariant
            n == t@.len(),
            t@ == trim(input@),
            lower@ == ascii_lower(t@.take(i as int)),
    {
        let c = t[i];
        let l = if 'A' <= c && c <= 'Z' {
            let code: u8 = (c as u32 + 32) as u8;
            assert(code == (c as u32) + 32);
            code as char
        } else {
            c
        };
        lower.push(l);
        assert(ascii_lower(t@.take(i + 1)) =~= ascii_lower(t@.take(i as int)).push(l));
    }
    assert(t@.take(n as int) == t@);
    lower
}

/// Parse a first-run prompt answer: empty input means "take the default"
/// (`Ok(None)`), a number or name selects that helper, anything else is
/// invalid (`Err`) and the caller should ask again.
pub fn parse_helper_choice(input: &str) -> (r: core::result::Result<Option<AurHelper>, ()>)
    ensures
        r == helper_choice(input@),
{
    let lower = trimmed_lowercase(input);
    let a = string_from_chars(&lower);
    let s = a.as_str();
    if lower.len() == 0 {
        Ok(None)
    } else if str_eq(s, "1") || str_eq(s, "paru") {
        Ok(Some(AurHelper::Paru))
    } else if str_eq(s, "2") || str_eq(s, "yay") {
        Ok(Some(AurHelper::Yay))
    } else if str_eq(s, "3") || str_eq(s, "none") {
        Ok(Some(AurHelper::Disabled))
    } else {
        Err(())
    }
}

/// The question asked on first run, offering `default`.
pub fn prompt_text(default: AurHelper) -> (r: String)
    ensures
        r@ == "Select the AUR helper for discovering and applying AUR upgrades:\n  [1] paru\n  [2] yay\n  [3] none (disable AUR handling)\nChoice [default: "@
            + default.label() + "]: "@,
{
    let mut s = string_of(
        "Select the AUR helper for discovering and applying AUR upgrades:\n  [1] paru\n  [2] yay\n  [3] none (disable AUR handling)\nChoice [default: ",
    );
    push_str(&mut s, default.as_str());
    push_str(&mut s, "]: ");
    s
}

/// The reply to an unrecognized answer before asking again.
pub fn retry_text() -> (r: &'static str)
    ensures
        r@ == "please answer 1, 2 or 3 (or paru/yay/none)\n"@,
{
    "please answer 1, 2 or 3 (or paru/yay/none)\n"
}

/// What one read of the first-run prompt decides: the helper to use, or
/// `None` to ask again. `line` is `None` at end of input or on a read
/// error, which takes `default` so the prompt can never hang.
pub fn prompt_answer(line: Option<&str>, default: AurHelper) -> (r: Option<AurHelper>)
    ensures
        match line {
            None => r == Some(default),
            Some(l) => match helper_choice(l@) {
                Ok(None) => r == Some(default),
                Ok(Some(h)) => r == Some(h),
                Err(()) => r is None,
            },
        },
{
    match line {
        None => Some(default),
        Some(l) => match parse_helper_choice(l) {
            Ok(None) => Some(default),
            Ok(Some(h)) => Some(h),
            Err(()) => None,
        },
    }
}

/// The base directory an XDG variable selects: its value when set and not
/// empty, else `fallback` joined with `sub`.
pub open spec fn xdg_base(var: Option<Seq<char>>, home: Option<Seq<char>>, sub: Seq<char>) -> Seq<
    char,
> {
    match var {
        Some(v) => if v.len() > 0 {
            v
        } else {
            path_join(home_base(home), sub)
        },
        None => path_join(home_base(home), sub),
    }
}

/// The home directory: `HOME` when set and not empty, else `/`.
pub open spec fn home_base(home: Option<Seq<char>>) -> Seq<char> {
    match home {
        Some(h) => if h.len() > 0 {
            h
        } else {
            "/"@
        },
        None => "/"@,
    }
}

fn xdg_base_exec(var: Option<&str>, home: Option<&str>, sub: &str) -> (r: String)
    ensures
        r@ == xdg_base(
            match var {
                Some(v) => Some(v@),
                None => None,
            },
            match home {
                Some(h) => Some(h@),
                None => None,
            },
            sub@,
        ),
{
    if let Some(v) = var {
        if !v.is_empty() {
            return string_of(v);
        }
    }
    let h = match home {
        Some(h) => if !h.is_empty() {
            string_of(h)
        } else {
            string_of("/")
        },
        None => string_of("/"),
    };
    join_path(h.as_str(), sub)
}

/// Default configuration file location, honoring `XDG_CONFIG_HOME`
/// (`config_home`) and `HOME` (`home`).
pub fn default_config_path(config_home: Option<&str>, home: Option<&str>) -> (r: String)
    ensures
        r@ == path_join(
            xdg_base(
                match config_home {
                    Some(v) => Some(v@),
                    None => None,
                },
                match home {
                    Some(h) => Some(h@),
                    None => None,
                },
                ".config"@,
            ),
            "pactience/config.toml"@,
        ),
{
    let base = xdg_base_exec(config_home, home, ".config");
    join_path(base.as_str(), "pactience/config.toml")
}

/// Default cache file location, honoring `XDG_CACHE_HOME` (`cache_home`)
/// and `HOME` (`home`).
pub fn default_cache_path(cache_home: Option<&str>, home: Option<&str>) -> (r: String)
    ensures
        r@ == path_join(
            xdg_base(
                match cache_home {
                    Some(v) => Some(v@),
                    None => None,
                },
                match home {
                    Some(h) => Some(h@),
                    None => None,
                },
                ".cache"@,
            ),
            "pactience/publications.json"@,
        ),
{
    let base = xdg_base_exec(cache_home, home, ".cache");
    join_path(base.as_str(), "pactience/publications.json")
}

/// The pieces of `s` between newlines (`str::split('\n')`): one more than
/// the number of newlines.
pub open spec fn newline_pieces(s: Seq<char>) -> Seq<Seq<char>>
    decreases s.len(),
{
    if s.len() == 0 {
        seq![seq![]]
    } else {
        let ps = newline_pieces(s.drop_last());
        if s.last() == '\n' {
            ps.push(seq![])
        } else {
            ps.update(ps.len() - 1, ps.last().push(s.last()))
        }
    }
}

proof fn lemma_newline_pieces_nonempty(s: Seq<char>)
    ensures
        newline_pieces(s).len() >= 1,
    decreases s.len(),
{
    if s.len() > 0 {
        lemma_newline_pieces_nonempty(s.drop_last());
    }
}

/// An active (not commented-out) `min_age_days = ...` line.
pub open spec fn is_min_age_line(line: Seq<char>) -> bool {
    let t = trim_start(line);
    starts_with(t, "min_age_days"@) && starts_with(trim_start(t.skip(12)), "="@)
}

/// The first active `min_age_days` line among `ls`.
pub open spec fn first_min_age_line(ls: Seq<Seq<char>>) -> Option<int>
    decreases ls.len(),
{
    if ls.len() == 0 {
        None
    } else {
        match first_min_age_line(ls.drop_last()) {
            Some(i) => Some(i),
            None => if is_min_age_line(ls.last()) {
                Some(ls.len() - 1)
            } else {
                None
            },
        }
    }
}

/// `s` with its active `min_age_days` line set to `days`: the first such
/// line is replaced in place; without one, the setting is appended.
pub open spec fn with_min_age_spec(s: Seq<char>, days: u32) -> Seq<char> {
    let line = "min_age_days = "@ + decimal(days as nat);
    let ps = newline_pieces(s);
    match first_min_age_line(ps) {
        Some(i) => crate::output::join(ps.update(i, line), "\n"@),
        None => s + (if s.len() > 0 && s.last() != '\n' {
            "\n"@
        } else {
            seq![]
        }) + line + "\n"@,
    }
}

fn is_min_age_line_exec(line: &Vec<char>) -> (r: bool)
    ensures
        r == is_min_age_line(line@),
{
    let t = trim_start_chars(line);
    let key = chars_of("min_age_days");
    if !starts_with_exec(&t, &key) {
        return false;
    }
    proof {
        reveal_strlit("min_age_days");
    }
    let rest = slice_chars(&t, 12, t.len());
    assert(rest@ == t@.skip(12));
    let after = trim_start_chars(&rest);
    let eq = chars_of("=");
    starts_with_exec(&after, &eq)
}

/// The pieces of `text` between newlines.
fn split_newlines(text: &Vec<char>) -> (pieces: Vec<Vec<char>>)
    ensures
        pieces@.len() == newline_pieces(text@).len(),
        pieces@.len() >= 1,
        forall|k: int| 0 <= k < pieces@.len() ==> #[trigger] pieces@[k]@ == newline_pieces(text@)[k],
{
    let ghost s = text@;
    let mut pieces: Vec<Vec<char>> = Vec::new();
    pieces.push(Vec::new());
    let n = text.len();
    for i in 0..n
        invariant
            n == text@.len(),
            text@ == s,
            pieces@.len() == newline_pieces(s.take(i as int)).len(),
            pieces@.len() >= 1,
            forall|k: int|
                0 <= k < pieces@.len() ==> #[trigger] pieces@[k]@ == newline_pieces(
                    s.take(i as int),
                )[k],
    {
        assert(s.take(i + 1).drop_last() == s.take(i as int));
        assert(s.take(i + 1).last() == text@[i as int]);
        if text[i] == '\n' {
            pieces.push(Vec::new());
        } else {
            let last = pieces.len() - 1;
            let mut piece = pieces[last].clone();
            piece.push(text[i]);
            pieces.set(last, piece);
        }
    }
    assert(s.take(n as int) == s);
    pieces
}

/// Set `min_age_days` to `days` in configuration text (`--set-min-age`):
/// an existing active line is replaced in place, otherwise the setting is
/// appended.
pub fn with_min_age(contents: &str, days: u32) -> (r: String)
    ensures
        r@ == with_min_age_spec(contents@, days),
{
    let text = chars_of(contents);
    let ghost s = contents@;
    let n = text.len();
    let pieces = split_newlines(&text);
    let ghost ps = newline_pieces(s);
    let mut line = string_of("min_age_days = ");
    push_u64(&mut line, days as u64);
    let m = pieces.len();
    let mut found: Option<usize> = None;
    let mut j: usize = 0;
    while j < m
        invariant
            m == pieces@.len() == ps.len(),
            forall|k: int| 0 <= k < m ==> #[trigger] pieces@[k]@ == ps[k],
            j <= m,
            found is None ==> first_min_age_line(ps.take(j as int)) is None,
            found matches Some(f) ==> f < m && first_min_age_line(ps) == Some(f as int),
            found is Some ==> j == m,
        decreases m - j,
    {
        assert(ps.take(j + 1).drop_last() == ps.take(j as int));
        if is_min_age_line_exec(&pieces[j]) {
            assert(first_min_age_line(ps.take(j + 1)) == Some(j as int));
            proof {
                lemma_first_min_age_prefix(ps, j as int + 1);
            }
            found = Some(j);
            j = m;
        } else {
            j = j + 1;
        }
    }
    match found {
        Some(f) => {
            let ghost parts = ps.update(f as int, line@);
            let mut out = String::new();
            for k in 0..m
                invariant
                    m == pieces@.len() == ps.len() == parts.len(),
                    f < m,
                    parts == ps.update(f as int, line@),
                    forall|q: int| 0 <= q < m ==> #[trigger] pieces@[q]@ == ps[q],
                    out@ == crate::output::join(parts.take(k as int), "\n"@),
            {
                assert(parts.take(k + 1).drop_last() == parts.take(k as int));
                if k > 0 {
                    push_str(&mut out, "\n");
                } else {
                    assert(parts.take(0).len() == 0);
                }
                if k == f {
                    push_str(&mut out, line.as_str());
                } else {
                    let piece = string_from_chars(&pieces[k]);
                    push_str(&mut out, piece.as_str());
                }
            }
            assert(parts.take(m as int) == parts);
            out
        },
        None => {
            assert(ps.take(m as int) == ps);
            let mut out = string_of(contents);
            if n > 0 && text[n - 1] != '\n' {
                push_str(&mut out, "\n");
            }
            push_str(&mut out, line.as_str());
            push_str(&mut out, "\n");
            out
        },
    }
}

proof fn lemma_first_min_age_prefix(ls: Seq<Seq<char>>, k: int)
    requires
        0 <= k <= ls.len(),
        first_min_age_line(ls.take(k)) is Some,
    ensures
        first_min_age_line(ls) == first_min_age_line(ls.take(k)),
    decreases ls.len() - k,
{
    if k < ls.len() {
        assert(ls.take(k + 1).drop_last() == ls.take(k));
        lemma_first_min_age_prefix(ls, k + 1);
    } else {
        assert(ls.take(k) == ls);
    }
}


// ---------------------------------------------------------------------------
// `--set-min-age` laws
// ---------------------------------------------------------------------------

/// The line `with_min_age` writes for `days`.
pub open spec fn min_age_line(days: u32) -> Seq<char> {
    "min_age_days = "@ + decimal(days as nat)
}

proof fn lemma_decimal_has_no_newline(n: nat)
    ensures
        forall|i: int| 0 <= i < decimal(n).len() ==> #[trigger] decimal(n)[i] != '\n',
    decreases n,
{
    if n >= 10 {
        lemma_decimal_has_no_newline(n / 10);
        assert forall|i: int| 0 <= i < decimal(n).len() implies #[trigger] decimal(n)[i] != '\n' by {
            if i < decimal(n / 10).len() {
                assert(decimal(n)[i] == decimal(n / 10)[i]);
            } else {
                assert(decimal(n)[i] == crate::text::digit_char((n % 10) as int));
            }
        }
    }
}

proof fn lemma_min_age_line(days: u32)
    ensures
        is_min_age_line(min_age_line(days)),
        forall|i: int| 0 <= i < min_age_line(days).len() ==> #[trigger] min_age_line(days)[i] != '\n',
{
    reveal_strlit("min_age_days = ");
    reveal_strlit("min_age_days");
    reveal_strlit("=");
    let l = min_age_line(days);
    let d = decimal(days as nat);
    lemma_decimal_has_no_newline(days as nat);
    assert(l[0] == 'm');
    assert(trim_start(l) == l);
    assert(l.take(12) =~= "min_age_days"@);
    let rest = l.skip(12);
    assert(rest =~= seq![' ', '='] + seq![' '] + d);
    assert(rest.drop_first() =~= seq!['='] + seq![' '] + d);
    assert(rest[0] == ' ' && crate::text::is_ws(' '));
    assert(rest.drop_first()[0] == '=' && !crate::text::is_ws('='));
    assert(trim_start(rest.drop_first()) == rest.drop_first());
    assert(trim_start(rest) == rest.drop_first());
    assert(rest.drop_first().take(1) =~= "="@);
    assert forall|i: int| 0 <= i < l.len() implies #[trigger] l[i] != '\n' by {
        if i >= 15 {
            assert(l[i] == d[i - 15]);
        }
    }
}

/// No piece contains a newline.
pub open spec fn plain_pieces(ps: Seq<Seq<char>>) -> bool {
    forall|k: int, i: int| 0 <= k < ps.len() && 0 <= i < ps[k].len() ==> #[trigger] ps[k][i] != '\n'
}

proof fn lemma_pieces_are_plain(s: Seq<char>)
    ensures
        plain_pieces(newline_pieces(s)),
        newline_pieces(s).len() >= 1,
    decreases s.len(),
{
    if s.len() > 0 {
        lemma_pieces_are_plain(s.drop_last());
        let ps = newline_pieces(s.drop_last());
        let qs = newline_pieces(s);
        if s.last() != '\n' {
            assert forall|k: int, i: int| 0 <= k < qs.len() && 0 <= i < qs[k].len() implies #[trigger] qs[k][i]
                != '\n' by {
                if k == ps.len() - 1 {
                    if i < ps.last().len() {
                        assert(qs[k][i] == ps[k][i]);
                    }
                } else {
                    assert(qs[k] == ps[k]);
                }
            }
        } else {
            assert forall|k: int, i: int| 0 <= k < qs.len() && 0 <= i < qs[k].len() implies #[trigger] qs[k][i]
                != '\n' by {
                if k < ps.len() {
                    assert(qs[k] == ps[k]);
                }
            }
        }
    }
}

/// Appending text without a newline extends the last piece.
proof fn lemma_pieces_append_plain(x: Seq<char>, y: Seq<char>)
    requires
        forall|i: int| 0 <= i < y.len() ==> #[trigger] y[i] != '\n',
    ensures
        newline_pieces(x + y) == newline_pieces(x).update(
            newline_pieces(x).len() - 1,
            newline_pieces(x).last() + y,
        ),
    decreases y.len(),
{
    lemma_newline_pieces_nonempty(x);
    let ps = newline_pieces(x);
    if y.len() == 0 {
        assert(x + y =~= x);
        assert(ps.last() + y =~= ps.last());
        assert(ps.update(ps.len() - 1, ps.last()) =~= ps);
    } else {
        let y0 = y.drop_last();
        lemma_pieces_append_plain(x, y0);
        assert((x + y).drop_last() =~= x + y0);
        assert((x + y).last() == y.last());
        let qs = newline_pieces(x + y0);
        assert(qs.last() == ps.last() + y0);
        assert(qs.last().push(y.last()) =~= ps.last() + y);
        assert(newline_pieces(x + y) =~= ps.update(ps.len() - 1, ps.last() + y));
    }
}

proof fn lemma_pieces_append_newline(x: Seq<char>)
    ensures
        newline_pieces(x.push('\n')) == newline_pieces(x).push(seq![]),
{
    assert(x.push('\n').drop_last() =~= x);
}

/// Splitting joined plain pieces gives them back.
proof fn lemma_pieces_of_join(ps: Seq<Seq<char>>)
    requires
        ps.len() >= 1,
        plain_pieces(ps),
    ensures
        newline_pieces(crate::output::join(ps, "\n"@)) == ps,
    decreases ps.len(),
{
    reveal_strlit("\n");
    if ps.len() == 1 {
        let p0 = ps[0];
        assert forall|i: int| 0 <= i < p0.len() implies #[trigger] p0[i] != '\n' by {
            assert(ps[0][i] != '\n');
        }
        lemma_pieces_append_plain(seq![], p0);
        assert(seq![] + p0 =~= p0);
        assert(newline_pieces(seq![]) == seq![Seq::<char>::empty()]);
        assert(ps =~= seq![p0]);
        assert(Seq::<char>::empty() + p0 =~= p0);
    } else {
        let front = ps.drop_last();
        assert forall|k: int, i: int| 0 <= k < front.len() && 0 <= i < front[k].len() implies #[trigger] front[k][i]
            != '\n' by {
            assert(front[k] == ps[k]);
        }
        lemma_pieces_of_join(front);
        let j = crate::output::join(front, "\n"@);
        let last = ps.last();
        assert forall|i: int| 0 <= i < last.len() implies #[trigger] last[i] != '\n' by {
            assert(ps[ps.len() - 1][i] != '\n');
        }
        assert(crate::output::join(ps, "\n"@) =~= j.push('\n') + last);
        lemma_pieces_append_newline(j);
        lemma_pieces_append_plain(j.push('\n'), last);
        let qs = front.push(seq![]);
        assert(qs.last() + last =~= last);
        assert(qs.update(qs.len() - 1, last) =~= ps);
    }
}

proof fn lemma_join_extend_last(ps: Seq<Seq<char>>, c: char)
    requires
        ps.len() >= 1,
    ensures
        crate::output::join(ps.update(ps.len() - 1, ps.last().push(c)), "\n"@) == crate::output::join(
            ps,
            "\n"@,
        ).push(c),
{
    let qs = ps.update(ps.len() - 1, ps.last().push(c));
    if ps.len() == 1 {
    } else {
        assert(qs.drop_last() =~= ps.drop_last());
    }
}

/// Joining the pieces of a text gives the text back.
proof fn lemma_join_of_pieces(s: Seq<char>)
    ensures
        crate::output::join(newline_pieces(s), "\n"@) == s,
    decreases s.len(),
{
    reveal_strlit("\n");
    if s.len() == 0 {
        assert(newline_pieces(s) =~= seq![Seq::<char>::empty()]);
    } else {
        let s0 = s.drop_last();
        lemma_join_of_pieces(s0);
        lemma_newline_pieces_nonempty(s0);
        let ps = newline_pieces(s0);
        if s.last() == '\n' {
            let qs = ps.push(seq![]);
            assert(qs.drop_last() =~= ps);
            assert(crate::output::join(qs, "\n"@) =~= s0 + "\n"@ + Seq::<char>::empty());
            assert(s =~= s0.push('\n'));
        } else {
            lemma_join_extend_last(ps, s.last());
            assert(s =~= s0.push(s.last()));
        }
    }
}

proof fn lemma_first_min_age_line_is(ls: Seq<Seq<char>>)
    ensures
        match first_min_age_line(ls) {
            Some(i) => 0 <= i < ls.len() && is_min_age_line(ls[i]) && forall|k: int|
                0 <= k < i ==> !is_min_age_line(#[trigger] ls[k]),
            None => forall|k: int| 0 <= k < ls.len() ==> !is_min_age_line(#[trigger] ls[k]),
        },
    decreases ls.len(),
{
    if ls.len() > 0 {
        let front = ls.drop_last();
        lemma_first_min_age_line_is(front);
        match first_min_age_line(front) {
            Some(i) => {
                assert(ls[i] == front[i]);
                assert forall|k: int| 0 <= k < i implies !is_min_age_line(#[trigger] ls[k]) by {
                    assert(ls[k] == front[k]);
                    assert(!is_min_age_line(front[k]));
                }
            },
            None => {
                assert forall|k: int| 0 <= k < ls.len() - 1 implies !is_min_age_line(
                    #[trigger] ls[k],
                ) by {
                    assert(ls[k] == front[k]);
                    assert(!is_min_age_line(front[k]));
                }
            },
        }
    }
}

/// The first active line is at `i` when it is the first one there.
proof fn lemma_first_min_age_line_at(ls: Seq<Seq<char>>, i: int)
    requires
        0 <= i < ls.len(),
        is_min_age_line(ls[i]),
        forall|k: int| 0 <= k < i ==> !is_min_age_line(#[trigger] ls[k]),
    ensures
        first_min_age_line(ls) == Some(i),
{
    lemma_first_min_age_line_is(ls);
    match first_min_age_line(ls) {
        Some(j) => {
            if j < i {
                assert(!is_min_age_line(ls[j]));
            }
            if j > i {
                assert(!is_min_age_line(ls[i]));
            }
        },
        None => {
            assert(!is_min_age_line(ls[i]));
        },
    }
}

/// What `--set-min-age` leaves behind: the text's first active
/// `min_age_days` line is the one just written.
pub proof fn lemma_set_min_age_is_read_back(s: Seq<char>, days: u32)
    ensures
        ({
            let ps = newline_pieces(with_min_age_spec(s, days));
            exists|i: int|
                0 <= i < ps.len() && first_min_age_line(ps) == Some(i) && ps[i] == min_age_line(days)
        }),
{
    let (ps, i) = lemma_set_min_age_pieces(s, days);
    assert(newline_pieces(with_min_age_spec(s, days))[i] == min_age_line(days));
}

/// What `with_min_age_spec` puts between a text without an active line and
/// the appended one.
spec fn min_age_sep(s: Seq<char>) -> Seq<char> {
    if s.len() > 0 && s.last() != '\n' {
        "\n"@
    } else {
        seq![]
    }
}

/// The pieces `with_min_age_spec(s, _)` fills in, whatever the days.
spec fn set_base(s: Seq<char>) -> Seq<Seq<char>> {
    match first_min_age_line(newline_pieces(s)) {
        Some(_) => newline_pieces(s),
        None => newline_pieces(s + min_age_sep(s)).push(seq![]),
    }
}

/// Where `with_min_age_spec(s, _)` writes its line.
spec fn set_index(s: Seq<char>) -> int {
    match first_min_age_line(newline_pieces(s)) {
        Some(i) => i,
        None => newline_pieces(s + min_age_sep(s)).len() - 1,
    }
}

/// The pieces of `with_min_age_spec(s, days)`: those of `s` with the new
/// line at the first active line's place, or appended.
proof fn lemma_set_min_age_pieces(s: Seq<char>, days: u32) -> (r: (Seq<Seq<char>>, int))
    ensures
        r.0 == newline_pieces(with_min_age_spec(s, days)),
        r.1 == set_index(s),
        0 <= r.1 < set_base(s).len(),
        0 <= r.1 < r.0.len(),
        r.0 == set_base(s).update(r.1, min_age_line(days)),
        first_min_age_line(r.0) == Some(r.1),
        r.0[r.1] == min_age_line(days),
{
    reveal_strlit("\n");
    reveal_strlit("min_age_days = ");
    let line = min_age_line(days);
    assert(line == "min_age_days = "@ + decimal(days as nat));
    lemma_min_age_line(days);
    lemma_pieces_are_plain(s);
    let ps = newline_pieces(s);
    lemma_first_min_age_line_is(ps);
    match first_min_age_line(ps) {
        Some(i) => {
            let qs = ps.update(i, line);
            assert forall|k: int, j: int| 0 <= k < qs.len() && 0 <= j < qs[k].len() implies #[trigger] qs[k][j]
                != '\n' by {
                if k == i {
                    assert(qs[k] == line);
                } else {
                    assert(qs[k] == ps[k]);
                }
            }
            lemma_pieces_of_join(qs);
            assert forall|k: int| 0 <= k < i implies !is_min_age_line(#[trigger] qs[k]) by {
                assert(qs[k] == ps[k]);
            }
            lemma_first_min_age_line_at(qs, i);
            (qs, i)
        },
        None => {
            let sep: Seq<char> = if s.len() > 0 && s.last() != '\n' {
                "\n"@
            } else {
                seq![]
            };
            let u = s + sep;
            let us = newline_pieces(u);
            // The pieces of `s + sep` end with an empty piece, and none of
            // them is an active line.
            if s.len() > 0 && s.last() != '\n' {
                assert(u =~= s.push('\n'));
                lemma_pieces_append_newline(s);
                assert(us == ps.push(seq![]));
            } else if s.len() == 0 {
                assert(u =~= s);
                assert(us =~= seq![Seq::<char>::empty()]);
            } else {
                assert(u =~= s);
                assert(s =~= s.drop_last().push('\n'));
                lemma_pieces_append_newline(s.drop_last());
            }
            lemma_newline_pieces_nonempty(u);
            reveal_strlit("min_age_days");
            assert(us.last() == Seq::<char>::empty());
            assert(!is_min_age_line(Seq::<char>::empty()));
            assert forall|k: int| 0 <= k < us.len() implies !is_min_age_line(#[trigger] us[k]) by {
                if k < ps.len() {
                    if s.len() > 0 && s.last() != '\n' {
                        assert(us[k] == ps[k]);
                    } else if s.len() > 0 {
                        assert(us[k] == ps[k]);
                    }
                }
            }
            let j = us.len() - 1;
            lemma_pieces_append_plain(u, line);
            assert(us.last() + line =~= line);
            let vs = us.update(j, line);
            assert(newline_pieces(u + line) == vs);
            lemma_pieces_append_newline(u + line);
            let ws = vs.push(seq![]);
            let t = with_min_age_spec(s, days);
            assert(t =~= (u + line).push('\n'));
            assert(newline_pieces(t) == ws);
            assert forall|k: int| 0 <= k < j implies !is_min_age_line(#[trigger] ws[k]) by {
                assert(ws[k] == us[k]);
            }
            lemma_first_min_age_line_at(ws, j);
            assert(sep == min_age_sep(s));
            assert(set_base(s) == us.push(seq![]));
            assert(set_base(s).update(j, line) =~= ws);
            (ws, j)
        },
    }
}

/// `--set-min-age` replaces rather than adds: setting the minimum age twice
/// leaves the same text as setting it once to the second value.
pub proof fn lemma_set_min_age_twice(s: Seq<char>, first: u32, second: u32)
    ensures
        with_min_age_spec(with_min_age_spec(s, first), second) == with_min_age_spec(s, second),
{
    let t = with_min_age_spec(s, first);
    let (ts, i) = lemma_set_min_age_pieces(s, first);
    let (ss, j) = lemma_set_min_age_pieces(s, second);
    let lb = min_age_line(second);
    // Setting `second` on `t` replaces the line just written.
    assert(with_min_age_spec(t, second) == crate::output::join(ts.update(i, lb), "\n"@));
    let base = set_base(s);
    assert(i == j);
    assert(ts == base.update(i, min_age_line(first)));
    assert(ss == base.update(i, lb));
    assert(ts.update(i, lb) =~= ss);
    lemma_join_of_pieces(with_min_age_spec(s, second));
}


// ---------------------------------------------------------------------------
// Source selection
// ---------------------------------------------------------------------------

/// An active (not commented-out) `sources = ...` line.
pub open spec fn is_sources_line(line: Seq<char>) -> bool {
    let t = trim_start(line);
    starts_with(t, "sources"@) && starts_with(trim_start(t.skip(7)), "="@)
}

/// Whether configuration text already records the sources to manage: then
/// nobody is asked again.
pub open spec fn records_sources(s: Seq<char>) -> bool {
    exists|i: int| 0 <= i < newline_pieces(s).len() && is_sources_line(#[trigger] newline_pieces(s)[i])
}

fn is_sources_line_exec(line: &Vec<char>) -> (r: bool)
    ensures
        r == is_sources_line(line@),
{
    let t = trim_start_chars(line);
    let key = chars_of("sources");
    if !starts_with_exec(&t, &key) {
        return false;
    }
    proof {
        reveal_strlit("sources");
    }
    let rest = slice_chars(&t, 7, t.len());
    assert(rest@ == t@.skip(7));
    let after = trim_start_chars(&rest);
    let eq = chars_of("=");
    starts_with_exec(&after, &eq)
}

/// Whether configuration text has an active `sources` setting.
pub fn has_sources_setting(contents: &str) -> (r: bool)
    ensures
        r == records_sources(contents@),
{
    let text = chars_of(contents);
    let pieces = split_newlines(&text);
    let ghost ps = newline_pieces(contents@);
    let m = pieces.len();
    for j in 0..m
        invariant
            m == pieces@.len() == ps.len(),
            ps == newline_pieces(contents@),
            forall|k: int| 0 <= k < m ==> #[trigger] pieces@[k]@ == ps[k],
            forall|k: int| 0 <= k < j ==> !is_sources_line(#[trigger] ps[k]),
    {
        if is_sources_line_exec(&pieces[j]) {
            assert(is_sources_line(ps[j as int]));
            return true;
        }
    }
    false
}

/// The question asked, once, about which package sources to manage.
pub fn sources_prompt_text() -> (r: &'static str)
    ensures
        r@ == "Which package sources should pactience manage?\n  [1] repo and aur\n  [2] repo only\n  [3] aur only\nChoice [default: 1]: "@,
{
    "Which package sources should pactience manage?\n  [1] repo and aur\n  [2] repo only\n  [3] aur only\nChoice [default: 1]: "
}

/// The reply to an unrecognized answer before asking again.
pub fn sources_retry_text() -> (r: &'static str)
    ensures
        r@ == "please answer 1, 2 or 3 (or both/repo/aur)\n"@,
{
    "please answer 1, 2 or 3 (or both/repo/aur)\n"
}

/// The sources an answer selects: `Ok(None)` for an empty answer (take
/// the default), `Err` for an unrecognized one.
pub open spec fn sources_choice(input: Seq<char>) -> core::result::Result<
    Option<Seq<PackageSource>>,
    (),
> {
    let a = ascii_lower(trim(input));
    if a.len() == 0 {
        Ok(None)
    } else if a == "1"@ || a == "both"@ {
        Ok(Some(seq![PackageSource::Repo, PackageSource::Aur]))
    } else if a == "2"@ || a == "repo"@ {
        Ok(Some(seq![PackageSource::Repo]))
    } else if a == "3"@ || a == "aur"@ {
        Ok(Some(seq![PackageSource::Aur]))
    } else {
        Err(())
    }
}

/// Parse an answer to the sources question.
pub fn parse_sources_choice(input: &str) -> (r: core::result::Result<
    Option<Vec<PackageSource>>,
    (),
>)
    ensures
        match r {
            Ok(Some(v)) => sources_choice(input@) == Ok::<Option<Seq<PackageSource>>, ()>(Some(v@)),
            Ok(None) => sources_choice(input@) == Ok::<Option<Seq<PackageSource>>, ()>(None),
            Err(()) => sources_choice(input@) is Err,
        },
{
    let lower = trimmed_lowercase(input);
    let a = string_from_chars(&lower);
    let s = a.as_str();
    if lower.len() == 0 {
        Ok(None)
    } else if str_eq(s, "1") || str_eq(s, "both") {
        let v = vec![PackageSource::Repo, PackageSource::Aur];
        assert(v@ =~= seq![PackageSource::Repo, PackageSource::Aur]);
        Ok(Some(v))
    } else if str_eq(s, "2") || str_eq(s, "repo") {
        let v = vec![PackageSource::Repo];
        assert(v@ =~= seq![PackageSource::Repo]);
        Ok(Some(v))
    } else if str_eq(s, "3") || str_eq(s, "aur") {
        let v = vec![PackageSource::Aur];
        assert(v@ =~= seq![PackageSource::Aur]);
        Ok(Some(v))
    } else {
        Err(())
    }
}

/// What one read of the sources question decides: the sources to manage,
/// or `None` to ask again. `line` is `None` at end of input or on a read
/// error, which takes the default (both) so the prompt can never hang.
pub fn sources_answer(line: Option<&str>) -> (r: Option<Vec<PackageSource>>)
    ensures
        match line {
            None => r matches Some(v) && v@ == seq![PackageSource::Repo, PackageSource::Aur],
            Some(l) => match sources_choice(l@) {
                Ok(None) => r matches Some(v) && v@ == seq![PackageSource::Repo, PackageSource::Aur],
                Ok(Some(c)) => r matches Some(v) && v@ == c,
                Err(()) => r is None,
            },
        },
{
    match line {
        None => Some(vec![PackageSource::Repo, PackageSource::Aur]),
        Some(l) => match parse_sources_choice(l) {
            Ok(None) => Some(vec![PackageSource::Repo, PackageSource::Aur]),
            Ok(Some(v)) => Some(v),
            Err(()) => None,
        },
    }
}

/// `"repo", "aur"`: the quoted labels, comma-separated.
pub open spec fn quoted_sources(v: Seq<PackageSource>) -> Seq<char>
    decreases v.len(),
{
    if v.len() == 0 {
        seq![]
    } else if v.len() == 1 {
        "\""@ + v[0].label() + "\""@
    } else {
        quoted_sources(v.drop_last()) + ", \""@ + v.last().label() + "\""@
    }
}

/// The `sources` setting recording `v`.
pub open spec fn sources_line(v: Seq<PackageSource>) -> Seq<char> {
    "sources = ["@ + quoted_sources(v) + "]"@
}

/// Configuration text with the chosen sources appended as an active
/// setting.
pub open spec fn with_sources_spec(s: Seq<char>, v: Seq<PackageSource>) -> Seq<char> {
    s + (if s.len() > 0 && s.last() != '\n' {
        "\n"@
    } else {
        seq![]
    }) + "# Chosen on first use.\n"@ + sources_line(v) + "\n"@
}

/// Append the chosen sources to configuration text, so that the question
/// is not asked again.
pub fn with_sources(contents: &str, sources: &[PackageSource]) -> (r: String)
    ensures
        r@ == with_sources_spec(contents@, sources@),
{
    let mut out = string_of(contents);
    let text = chars_of(contents);
    let n = text.len();
    if n > 0 && text[n - 1] != '\n' {
        push_str(&mut out, "\n");
    }
    push_str(&mut out, "# Chosen on first use.\nsources = [");
    let ghost start = out@;
    let k = sources.len();
    for i in 0..k
        invariant
            k == sources@.len(),
            out@ == start + quoted_sources(sources@.take(i as int)),
    {
        let ghost before = out@;
        if i > 0 {
            push_str(&mut out, ", \"");
        } else {
            push_str(&mut out, "\"");
        }
        push_str(&mut out, sources[i].as_str());
        push_str(&mut out, "\"");
        proof {
            let t = sources@.take(i + 1);
            assert(t.drop_last() =~= sources@.take(i as int));
            assert(t.last() == sources@[i as int]);
            reveal_strlit("\"");
            reveal_strlit(", \"");
            if i == 0 {
                assert(sources@.take(0) =~= Seq::<PackageSource>::empty());
                assert(t.len() == 1 && t[0] == sources@[0]);
            }
            assert(out@ =~= start + quoted_sources(t));
        }
    }
    assert(sources@.take(k as int) =~= sources@);
    push_str(&mut out, "]\n");
    proof {
        reveal_strlit("]\n");
        reveal_strlit("]");
        reveal_strlit("\n");
        reveal_strlit("# Chosen on first use.\nsources = [");
        reveal_strlit("# Chosen on first use.\n");
        reveal_strlit("sources = [");
    }
    assert(out@ =~= with_sources_spec(contents@, sources@));
    out
}

proof fn lemma_quoted_sources_plain(v: Seq<PackageSource>)
    ensures
        forall|i: int| 0 <= i < quoted_sources(v).len() ==> #[trigger] quoted_sources(v)[i] != '\n',
    decreases v.len(),
{
    reveal_strlit("\"");
    reveal_strlit(", \"");
    reveal_strlit("repo");
    reveal_strlit("aur");
    if v.len() == 1 {
        let q = quoted_sources(v);
        assert forall|i: int| 0 <= i < q.len() implies #[trigger] q[i] != '\n' by {
            if 1 <= i < q.len() - 1 {
                assert(q[i] == v[0].label()[i - 1]);
            }
        }
    } else if v.len() > 1 {
        lemma_quoted_sources_plain(v.drop_last());
        let p = quoted_sources(v.drop_last());
        let q = quoted_sources(v);
        assert forall|i: int| 0 <= i < q.len() implies #[trigger] q[i] != '\n' by {
            if i < p.len() {
                assert(q[i] == p[i]);
            } else if p.len() + 3 <= i < q.len() - 1 {
                assert(q[i] == v.last().label()[i - p.len() - 3]);
            }
        }
    }
}

/// Asked once: text with the chosen sources appended records them, so
/// the question is not asked of it again.
pub proof fn lemma_sources_asked_once(s: Seq<char>, v: Seq<PackageSource>)
    ensures
        records_sources(with_sources_spec(s, v)),
{
    reveal_strlit("\n");
    reveal_strlit("# Chosen on first use.\n");
    reveal_strlit("sources = [");
    reveal_strlit("]");
    reveal_strlit("sources");
    reveal_strlit("=");
    let line = sources_line(v);
    lemma_quoted_sources_plain(v);
    let q = quoted_sources(v);
    assert forall|i: int| 0 <= i < line.len() implies #[trigger] line[i] != '\n' by {
        if 11 <= i < line.len() - 1 {
            assert(line[i] == q[i - 11]);
        }
    }
    let sep: Seq<char> = if s.len() > 0 && s.last() != '\n' {
        "\n"@
    } else {
        seq![]
    };
    let head = s + sep + "# Chosen on first use.\n"@;
    assert(head =~= (s + sep + "# Chosen on first use."@).push('\n')) by {
        reveal_strlit("# Chosen on first use.");
    }
    let x = s + sep + "# Chosen on first use."@;
    lemma_pieces_append_newline(x);
    lemma_newline_pieces_nonempty(x);
    lemma_pieces_append_plain(head, line);
    let hp = newline_pieces(head);
    assert(hp.last() == Seq::<char>::empty());
    assert(hp.last() + line =~= line);
    let lp = newline_pieces(head + line);
    assert(lp.last() == line);
    lemma_pieces_append_newline(head + line);
    let t = with_sources_spec(s, v);
    assert(t =~= (head + line).push('\n'));
    let tp = newline_pieces(t);
    assert(tp == lp.push(seq![]));
    let i = lp.len() - 1;
    assert(tp[i] == line);
    // The recorded line is an active `sources` setting.
    assert(line[0] == 's');
    assert(trim_start(line) == line);
    assert(line.take(7) =~= "sources"@);
    let rest = line.skip(7);
    assert(rest[0] == ' ' && crate::text::is_ws(' '));
    assert(rest.drop_first()[0] == '=' && !crate::text::is_ws('='));
    assert(trim_start(rest.drop_first()) == rest.drop_first());
    assert(trim_start(rest) == rest.drop_first());
    assert(rest.drop_first().take(1) =~= "="@);
    assert(is_sources_line(tp[i]));
}


/// Command-line flags override the file: whatever the file sets, an option
/// given on the command line takes the command line's value, and a switch
/// given on the command line is on whatever the file says.
pub proof fn lemma_cli_overrides_file(file: FileConfig, cli: Cli)
    ensures
        ({
            let c = merged_cli(merged_file(default_view(), file), cli);
            &&& (cli.min_age_days matches Some(d) ==> c.min_age_days == d)
            &&& (cli.dependency_policy matches Some(p) ==> c.dependency_policy == p)
            &&& (cli.aur_helper matches Some(h) ==> c.aur_helper == h)
            &&& (cli.sources matches Some(v) ==> c.sources == v@)
            &&& (cli.aur_heuristic ==> c.aur_heuristic)
            &&& (cli.allow_unknown ==> c.allow_unknown)
            &&& (cli.no_aur_git ==> !c.aur_git)
        }),
{
}

} // verus!
