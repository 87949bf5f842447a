//! The upgrade plan for the allowed set: which `pacman` and AUR-helper
//! commands would run, and running them through an injectable executor.
//!
//! This is the only part of the tool that can change system state. It is
//! reached only on `--apply`; the default dry-run path only builds the plan.

use vstd::prelude::*;

use crate::config::AurHelper;
use crate::error::{Error, Result};
use crate::model::{decision_views, DecisionView, Decision, PackageSource, Verdict};
use crate::text::{chars_of, lines, lines_of, parse_u32, parse_u32_spec, push_char, push_str,
    starts_with, starts_with_exec, string_of, words, words_of};

verus! {

/// A command that would be (or was) executed, in argv form. Kept as data so
/// dry-run mode can print it and tests can assert on it.
#[derive(Debug, Clone, PartialEq, Eq)]
pub struct PlannedCommand {
    pub program: String,
    pub args: Vec<String>,
}

/// The abstract value of a [`PlannedCommand`].
pub struct CommandView {
    pub program: Seq<char>,
    pub args: Seq<Seq<char>>,
}

impl View for PlannedCommand {
    type V = CommandView;

    open spec fn view(&self) -> CommandView {
        CommandView { program: self.program@, args: self.args@.map_values(|a: String| a@) }
    }
}

/// `program arg1 arg2 ...`.
pub open spec fn command_line(program: Seq<char>, args: Seq<Seq<char>>) -> Seq<char>
    decreases args.len(),
{
    if args.len() == 0 {
        program
    } else {
        command_line(program, args.drop_last()) + seq![' '] + args.last()
    }
}

impl PlannedCommand {
    /// The command as one line: the program, then each argument after a
    /// space (its `Display`).
    pub fn display(&self) -> (r: String)
        ensures
            r@ == command_line(self@.program, self@.args),
    {
        let ghost args = self@.args;
        let mut s = string_of(self.program.as_str());
        let n = self.args.len();
        for i in 0..n
            invariant
                n == self.args@.len() == args.len(),
                args == self@.args,
                s@ == command_line(self@.program, args.take(i as int)),
        {
            assert(args.take(i + 1).drop_last() == args.take(i as int));
            push_char(&mut s, ' ');
            push_str(&mut s, self.args[i].as_str());
        }
        assert(args.take(n as int) == args);
        s
    }
}

/// Side-effecting executor; injectable so callers can record or simulate.
/// `ran(command, outcome)` is the implementation's own account of a run: a
/// call of `run` on `command` may give `outcome`. The default says nothing;
/// code generic over the executor knows of `ran` only that each call of
/// `run` satisfies it, so its contract names the calls it makes.
pub trait Executor {
    open spec fn ran(&self, command: CommandView, outcome: Result<()>) -> bool {
        true
    }

    fn run(&self, command: &PlannedCommand) -> (r: Result<()>)
        ensures
            self.ran(command@, r),
    ;
}

/// Characters allowed in a package name: lowercase ASCII letters, digits
/// and `@ . _ + -`.
pub open spec fn name_char(c: char) -> bool {
    ||| 'a' <= c <= 'z'
    ||| '0' <= c <= '9'
    ||| c == '@'
    ||| c == '.'
    ||| c == '_'
    ||| c == '+'
    ||| c == '-'
}

/// A non-empty name made only of [`name_char`]s.
pub open spec fn valid_name(s: Seq<char>) -> bool {
    s.len() > 0 && forall|i: int| 0 <= i < s.len() ==> #[trigger] name_char(s[i])
}

/// Pacman package names: lowercase alnum plus `@ . _ + -`.
/// Validated defensively even though commands are spawned without a shell.
pub fn is_valid_package_name(name: &str) -> (b: bool)
    ensures
        b == valid_name(name@),
{
    let v = chars_of(name);
    if v.len() == 0 {
        return false;
    }
    let n = v.len();
    for i in 0..n
        invariant
            n == v@.len(),
            v@ == name@,
            forall|k: int| 0 <= k < i ==> #[trigger] name_char(v@[k]),
    {
        let c = v[i];
        let ok = ('a' <= c && c <= 'z') || ('0' <= c && c <= '9') || c == '@' || c == '.' || c
            == '_' || c == '+' || c == '-';
        if !ok {
            assert(!name_char(name@[i as int]));
            return false;
        }
    }
    true
}

/// The index of the first line of `ls` that starts with `p`.
pub open spec fn first_line_with(ls: Seq<Seq<char>>, p: Seq<char>) -> Option<int>
    decreases ls.len(),
{
    if ls.len() == 0 {
        None
    } else {
        match first_line_with(ls.drop_last(), p) {
            Some(i) => Some(i),
            None => if starts_with(ls.last(), p) {
                Some(ls.len() - 1)
            } else {
                None
            },
        }
    }
}

/// The effective UID recorded in `/proc/self/status` content: the third
/// field of the first `Uid:` line.
pub open spec fn effective_uid_spec(status: Seq<char>) -> Option<u32> {
    let ls = lines(status);
    match first_line_with(ls, "Uid:"@) {
        None => None,
        Some(i) => {
            let w = words(ls[i]);
            if w.len() > 2 {
                parse_u32_spec(w[2])
            } else {
                None
            }
        },
    }
}

/// Effective UID from the content of `/proc/self/status` (0 = root).
/// Returns `None` when it cannot be determined; callers treat `None` as
/// non-root, which keeps the safer behavior (warn less, elevate via sudo).
pub fn effective_uid(status: &str) -> (r: Option<u32>)
    ensures
        r == effective_uid_spec(status@),
{
    let text = chars_of(status);
    let ls = lines_of(&text);
    let ghost lsv = lines(status@);
    let prefix = chars_of("Uid:");
    let n = ls.len();
    let mut found: Option<usize> = None;
    let mut i: usize = 0;
    while i < n
        invariant
            n == ls@.len() == lsv.len(),
            lsv == lines(status@),
            forall|k: int| 0 <= k < n ==> #[trigger] ls@[k]@ == lsv[k],
            prefix@ == "Uid:"@,
            i <= n,
            found is None ==> first_line_with(lsv.take(i as int), "Uid:"@) is None,
            found matches Some(j) ==> j < n && first_line_with(lsv, "Uid:"@) == Some(j as int),
            found is Some ==> i == n,
        decreases n - i,
    {
        assert(lsv.take(i + 1).drop_last() == lsv.take(i as int));
        if starts_with_exec(&ls[i], &prefix) {
            assert(first_line_with(lsv.take(i + 1), "Uid:"@) == Some(i as int));
            proof {
                lemma_first_line_prefix(lsv, "Uid:"@, i as int + 1);
            }
            found = Some(i);
            i = n;
        } else {
            i = i + 1;
        }
    }
    match found {
        None => {
            assert(lsv.take(n as int) == lsv);
            None
        },
        Some(j) => {
            let w = words_of(&ls[j]);
            if w.len() > 2 {
                parse_u32(&w[2])
            } else {
                None
            }
        },
    }
}

/// A match found in a prefix is the first match of the whole sequence.
proof fn lemma_first_line_prefix(ls: Seq<Seq<char>>, p: Seq<char>, k: int)
    requires
        0 <= k <= ls.len(),
        first_line_with(ls.take(k), p) is Some,
    ensures
        first_line_with(ls, p) == first_line_with(ls.take(k), p),
    decreases ls.len() - k,
{
    if k < ls.len() {
        assert(ls.take(k + 1).drop_last() == ls.take(k));
        lemma_first_line_prefix(ls, p, k + 1);
    } else {
        assert(ls.take(k) == ls);
    }
}

/// Names of the decisions among `ds` that are not blocked and come from
/// `source`, in order.
pub open spec fn upgrade_names(ds: Seq<DecisionView>, source: PackageSource) -> Seq<Seq<char>>
    decreases ds.len(),
{
    if ds.len() == 0 {
        seq![]
    } else {
        let rest = upgrade_names(ds.drop_last(), source);
        let d = ds.last();
        if d.verdict != Verdict::Block && d.candidate.source == source {
            rest.push(d.candidate.name@)
        } else {
            rest
        }
    }
}

/// The first name among the non-blocked decisions that is not a valid
/// package name.
pub open spec fn first_invalid_name(ds: Seq<DecisionView>) -> Option<Seq<char>>
    decreases ds.len(),
{
    if ds.len() == 0 {
        None
    } else {
        match first_invalid_name(ds.drop_last()) {
            Some(n) => Some(n),
            None => {
                let d = ds.last();
                if d.verdict != Verdict::Block && !valid_name(d.candidate.name@) {
                    Some(d.candidate.name@)
                } else {
                    None
                }
            },
        }
    }
}

/// What planning yields.
pub enum PlanOutcome {
    Commands(Seq<CommandView>),
    /// A selected package has an invalid name.
    InvalidName(Seq<char>),
    /// AUR upgrades are selected but AUR handling is disabled.
    NoHelper,
}

/// The repository command: `sudo pacman -S names..`, or `pacman -S names..`
/// when already root.
pub open spec fn repo_command(names: Seq<Seq<char>>, as_root: bool) -> CommandView {
    if as_root {
        CommandView { program: "pacman"@, args: seq!["-S"@] + names }
    } else {
        CommandView { program: "sudo"@, args: seq!["pacman"@, "-S"@] + names }
    }
}

/// The plan for `ds`: repository upgrades through pacman, AUR upgrades
/// through the helper, blocked decisions left out.
pub open spec fn plan_outcome(ds: Seq<DecisionView>, as_root: bool, helper: AurHelper) -> PlanOutcome {
    let repo = upgrade_names(ds, PackageSource::Repo);
    let aur = upgrade_names(ds, PackageSource::Aur);
    let repo_cmds = if repo.len() > 0 {
        seq![repo_command(repo, as_root)]
    } else {
        seq![]
    };
    match first_invalid_name(ds) {
        Some(n) => PlanOutcome::InvalidName(n),
        None => if aur.len() == 0 {
            PlanOutcome::Commands(repo_cmds)
        } else {
            match helper.program_spec() {
                None => PlanOutcome::NoHelper,
                Some(p) => PlanOutcome::Commands(
                    repo_cmds.push(CommandView { program: p, args: seq!["-S"@] + aur }),
                ),
            }
        },
    }
}

/// The abstract values of a list of commands.
pub open spec fn command_views(cs: Seq<PlannedCommand>) -> Seq<CommandView> {
    cs.map_values(|c: PlannedCommand| c@)
}

/// `s` as `{:?}` prints it: quoted, with special characters escaped.
pub uninterp spec fn debug_quoted(s: Seq<char>) -> Seq<char>;

/// `format!("{s:?}")`: the `Debug` form of a string slice.
#[verifier::external_body]
pub(crate) fn quoted(s: &str) -> (r: String)
    ensures
        r@ == debug_quoted(s@),
{
    format!("{s:?}")
}

/// `["-S", names..]`, optionally preceded by `pacman`.
fn install_args(lead_pacman: bool, names: Vec<String>) -> (r: Vec<String>)
    ensures
        r@.map_values(|a: String| a@) == (if lead_pacman {
            seq!["pacman"@, "-S"@]
        } else {
            seq!["-S"@]
        }) + names@.map_values(|a: String| a@),
{
    let mut args: Vec<String> = Vec::new();
    if lead_pacman {
        args.push(string_of("pacman"));
    }
    args.push(string_of("-S"));
    let ghost lead = args@.map_values(|a: String| a@);
    let n = names.len();
    for i in 0..n
        invariant
            n == names@.len(),
            args@.map_values(|a: String| a@) == lead + names@.take(i as int).map_values(
                |a: String| a@,
            ),
    {
        let ghost before = args@.map_values(|a: String| a@);
        args.push(names[i].clone());
        assert(args@.map_values(|a: String| a@) =~= before.push(names@[i as int]@));
        assert(names@.take(i + 1).map_values(|a: String| a@) =~= names@.take(i as int).map_values(
            |a: String| a@,
        ).push(names@[i as int]@));
    }
    assert(names@.take(n as int) == names@);
    args
}

/// Build the command plan for the allowed (and promoted) upgrades.
/// Repository packages go through `sudo pacman -S` — or plain `pacman -S`
/// when already running as root — and AUR packages through `<helper> -S`
/// (the helper runs sudo itself when needed). AUR upgrades with the helper
/// disabled are a configuration error: discovery cannot produce them, so
/// this only guards against API misuse.
pub fn plan(decisions: &[Decision], as_root: bool, helper: AurHelper) -> (r: Result<
    Vec<PlannedCommand>,
>)
    ensures
        match r {
            Ok(cmds) => plan_outcome(decision_views(decisions@), as_root, helper)
                == PlanOutcome::Commands(command_views(cmds@)),
            Err(e) => match plan_outcome(decision_views(decisions@), as_root, helper) {
                PlanOutcome::Commands(_) => false,
                PlanOutcome::InvalidName(n) => e matches Error::Parse { what, message } && what@
                    == "package name"@ && message@ == "refusing to upgrade invalid package name "@
                    + debug_quoted(n),
                PlanOutcome::NoHelper => e matches Error::Parse { what, message } && what@
                    == "apply plan"@ && message@
                    == "AUR upgrades selected but aur_helper is \"none\""@,
            },
        },
{
    let ghost ds = decision_views(decisions@);
    let mut repo: Vec<String> = Vec::new();
    let mut aur: Vec<String> = Vec::new();
    let n = decisions.len();
    for i in 0..n
        invariant
            n == decisions@.len() == ds.len(),
            ds == decision_views(decisions@),
            first_invalid_name(ds.take(i as int)) is None,
            repo@.map_values(|a: String| a@) == upgrade_names(ds.take(i as int), PackageSource::Repo),
            aur@.map_values(|a: String| a@) == upgrade_names(ds.take(i as int), PackageSource::Aur),
    {
        let d = &decisions[i];
        assert(ds[i as int] == d@);
        assert(ds.take(i + 1).drop_last() == ds.take(i as int));
        assert(ds.take(i + 1).last() == d@);
        if d.verdict != Verdict::Block {
            let name = &d.candidate.name;
            if !is_valid_package_name(name.as_str()) {
                assert(first_invalid_name(ds.take(i + 1)) == Some(name@));
                proof {
                    lemma_first_invalid_prefix(ds, i as int + 1);
                }
                let q = quoted(name.as_str());
                let mut message = string_of("refusing to upgrade invalid package name ");
                push_str(&mut message, q.as_str());
                return Err(Error::parse("package name", message.as_str()));
            }
            match d.candidate.source {
                PackageSource::Repo => {
                    repo.push(name.clone());
                    assert(repo@.map_values(|a: String| a@) == upgrade_names(
                        ds.take(i as int),
                        PackageSource::Repo,
                    ).push(name@));
                },
                PackageSource::Aur => {
                    aur.push(name.clone());
                    assert(aur@.map_values(|a: String| a@) == upgrade_names(
                        ds.take(i as int),
                        PackageSource::Aur,
                    ).push(name@));
                },
            }
        }
    }
    assert(ds.take(n as int) == ds);
    let ghost repo_v = repo@.map_values(|a: String| a@);
    let ghost aur_v = aur@.map_values(|a: String| a@);
    let mut commands: Vec<PlannedCommand> = Vec::new();
    if repo.len() > 0 {
        // As root there is nothing to elevate; calling sudo would only add a
        // spurious dependency on sudo being installed.
        let program = if as_root {
            "pacman"
        } else {
            "sudo"
        };
        let args = install_args(!as_root, repo);
        commands.push(PlannedCommand { program: string_of(program), args });
        assert(command_views(commands@) == seq![repo_command(repo_v, as_root)]);
    } else {
        assert(command_views(commands@) == Seq::<CommandView>::empty());
    }
    let ghost repo_cmds = command_views(commands@);
    if aur.len() > 0 {
        match helper.program() {
            None => {
                return Err(
                    Error::parse("apply plan", "AUR upgrades selected but aur_helper is \"none\""),
                );
            },
            Some(program) => {
                let args = install_args(false, aur);
                commands.push(PlannedCommand { program: string_of(program), args });
                assert(command_views(commands@) == repo_cmds.push(
                    CommandView { program: program@, args: seq!["-S"@] + aur_v },
                ));
            },
        }
    }
    Ok(commands)
}

/// An invalid name found in a prefix is the first invalid name overall.
proof fn lemma_first_invalid_prefix(ds: Seq<DecisionView>, k: int)
    requires
        0 <= k <= ds.len(),
        first_invalid_name(ds.take(k)) is Some,
    ensures
        first_invalid_name(ds) == first_invalid_name(ds.take(k)),
    decreases ds.len() - k,
{
    if k < ds.len() {
        assert(ds.take(k + 1).drop_last() == ds.take(k));
        lemma_first_invalid_prefix(ds, k + 1);
    } else {
        assert(ds.take(k) == ds);
    }
}

/// What running the commands gave, in order: every outcome but the last
/// succeeded, and the run ends either at the first failure or after the
/// last command.
pub open spec fn run_outcomes(n: nat, outs: Seq<Result<()>>, r: Result<()>) -> bool {
    &&& outs.len() <= n
    &&& forall|k: int| 0 <= k < outs.len() - 1 ==> #[trigger] outs[k] is Ok
    &&& if n == 0 {
        outs.len() == 0 && r is Ok
    } else {
        &&& outs.len() >= 1
        &&& r == outs.last()
        &&& (outs.last() is Ok ==> outs.len() == n)
    }
}

/// After command `i` of `n` gave `outcome`: the next command to run, or
/// `None` when the run ends (on a failure, or after the last command).
pub fn next_command(i: usize, n: usize, outcome: &Result<()>) -> (r: Option<usize>)
    requires
        i < n,
    ensures
        r == (if outcome is Ok && i + 1 < n {
            Some((i + 1) as usize)
        } else {
            None
        }),
{
    match outcome {
        Ok(()) => if i + 1 < n {
            Some(i + 1)
        } else {
            None
        },
        Err(_) => None,
    }
}

/// Execute the plan in order, stopping at the first failure, whose error is
/// returned.
pub fn execute<E: Executor>(commands: &[PlannedCommand], executor: &E) -> (r: Result<()>)
    ensures
        commands@.len() == 0 ==> r is Ok,
        exists|outs: Seq<Result<()>>|
            {
                &&& run_outcomes(commands@.len(), outs, r)
                &&& forall|k: int|
                    0 <= k < outs.len() ==> executor.ran(commands@[k]@, #[trigger] outs[k])
            },
{
    let n = commands.len();
    if n == 0 {
        assert(run_outcomes(0, Seq::<Result<()>>::empty(), Ok(())));
        return Ok(());
    }
    let mut i: usize = 0;
    let ghost mut outs: Seq<Result<()>> = Seq::empty();
    loop
        invariant
            n == commands@.len(),
            0 <= i < n,
            outs.len() == i,
            forall|k: int| 0 <= k < outs.len() ==> #[trigger] outs[k] is Ok,
            forall|k: int| 0 <= k < outs.len() ==> executor.ran(commands@[k]@, #[trigger] outs[k]),
        decreases n - i,
    {
        let outcome = executor.run(&commands[i]);
        proof {
            outs = outs.push(outcome);
        }
        match next_command(i, n, &outcome) {
            Some(j) => {
                i = j;
            },
            None => {
                assert(run_outcomes(n as nat, outs, outcome));
                return outcome;
            },
        }
    }
}


/// Only what passed the policy is installed: every name the plan hands to
/// pacman or the AUR helper belongs to a non-blocked decision of that
/// source, and every non-blocked decision of that source is handed over.
pub proof fn lemma_plan_installs_exactly_the_upgrades(ds: Seq<DecisionView>, source: PackageSource)
    ensures
        forall|i: int|
            0 <= i < upgrade_names(ds, source).len() ==> exists|j: int|
                0 <= j < ds.len() && ds[j].verdict != Verdict::Block && ds[j].candidate.source
                    == source && #[trigger] upgrade_names(ds, source)[i] == ds[j].candidate.name@,
        forall|j: int|
            0 <= j < ds.len() && ds[j].verdict != Verdict::Block && ds[j].candidate.source == source
                ==> upgrade_names(ds, source).contains(#[trigger] ds[j].candidate.name@),
    decreases ds.len(),
{
    if ds.len() > 0 {
        let front = ds.drop_last();
        lemma_plan_installs_exactly_the_upgrades(front, source);
        let names = upgrade_names(ds, source);
        let rest = upgrade_names(front, source);
        assert forall|i: int| 0 <= i < names.len() implies exists|j: int|
            0 <= j < ds.len() && ds[j].verdict != Verdict::Block && ds[j].candidate.source == source
                && #[trigger] names[i] == ds[j].candidate.name@ by {
            if i < rest.len() {
                assert(names[i] == rest[i]);
                let j = choose|j: int|
                    0 <= j < front.len() && front[j].verdict != Verdict::Block
                        && front[j].candidate.source == source && rest[i] == front[j].candidate.name@;
                assert(ds[j] == front[j]);
            } else {
                assert(names[i] == ds.last().candidate.name@);
                assert(ds[ds.len() - 1] == ds.last());
            }
        }
        assert forall|j: int|
            0 <= j < ds.len() && ds[j].verdict != Verdict::Block && ds[j].candidate.source == source
                implies names.contains(#[trigger] ds[j].candidate.name@) by {
            if j < ds.len() - 1 {
                assert(ds[j] == front[j]);
                assert(rest.contains(front[j].candidate.name@));
                let k = choose|k: int| 0 <= k < rest.len() && rest[k] == front[j].candidate.name@;
                assert(names[k] == rest[k]);
            } else {
                assert(names[names.len() - 1] == ds.last().candidate.name@);
            }
        }
    }
}

} // verus!
