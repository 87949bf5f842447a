//! Discovery of upgradable packages via `pacman -Qu` and the configured AUR
//! helper (`-Qua`).

use vstd::prelude::*;

use crate::apply::{is_valid_package_name, valid_name};
use crate::config::AurHelper;
use crate::error::{Error, Result};
use crate::model::{PackageSource, UpgradeCandidate};
use crate::text::{chars_eq, chars_of, contains, contains_exec, decimal_int, lines, lines_of,
    push_char, push_i64, push_str, string_from_chars, string_of, trim, trim_chars, words,
    words_of};

verus! {

/// Raw result of running an external command.
#[derive(Debug)]
pub struct CommandOutput {
    pub status: Option<i32>,
    pub stdout: String,
    pub stderr: String,
}

/// Process execution, abstracted so callers can run commands for real or
/// answer them from a script. `replied(program, args, reply)` is the
/// implementation's own account of a call: running `program` with `args`
/// may give `reply`. The default says nothing; code generic over the runner
/// knows of `replied` only that each call of `run` satisfies it, so its
/// contract names the calls it makes and the replies it used.
pub trait CommandRunner {
    open spec fn replied(&self, program: Seq<char>, args: Seq<Seq<char>>, reply: Result<CommandOutput>) -> bool {
        true
    }

    fn run(&self, program: &str, args: &[&str]) -> (r: Result<CommandOutput>)
        ensures
            self.replied(program@, str_views(args@), r),
    ;
}

/// `program arg1 arg2 ...`.
pub open spec fn joined_command(program: Seq<char>, args: Seq<Seq<char>>) -> Seq<char>
    decreases args.len(),
{
    if args.len() == 0 {
        program
    } else {
        joined_command(program, args.drop_last()) + seq![' '] + args.last()
    }
}

/// The views of a list of string slices.
pub open spec fn str_views(v: Seq<&str>) -> Seq<Seq<char>> {
    v.map_values(|s: &str| s@)
}

/// The program and its arguments joined by single spaces.
pub fn format_command(program: &str, args: &[&str]) -> (r: String)
    ensures
        r@ == joined_command(program@, str_views(args@)),
{
    let ghost a = str_views(args@);
    let mut s = string_of(program);
    let n = args.len();
    for i in 0..n
        invariant
            n == args@.len() == a.len(),
            a == str_views(args@),
            s@ == joined_command(program@, a.take(i as int)),
    {
        assert(a.take(i + 1).drop_last() == a.take(i as int));
        push_char(&mut s, ' ');
        push_str(&mut s, args[i]);
    }
    assert(a.take(n as int) == a);
    s
}

/// The `{:?}` form of an optional exit status: `Some(n)` or `None`.
pub open spec fn status_text(status: Option<i32>) -> Seq<char> {
    match status {
        Some(v) => "Some("@ + decimal_int(v as int) + ")"@,
        None => "None"@,
    }
}

/// [`status_text`] as a string.
pub fn status_string(status: Option<i32>) -> (r: String)
    ensures
        r@ == status_text(status),
{
    match status {
        Some(v) => {
            let mut s = string_of("Some(");
            push_i64(&mut s, v as i64);
            push_str(&mut s, ")");
            s
        },
        None => string_of("None"),
    }
}

/// The warning a listing command leaves, if any: statuses 0 and 1 are
/// benign (1 means "no updates" on some pacman versions), and a command
/// that still listed something did its work; any other status with nothing
/// listed is a failure.
pub open spec fn listing_warning(command: Seq<char>, out: CommandOutput) -> Option<Seq<char>> {
    if out.status == Some(0i32) || out.status == Some(1i32) || trim(out.stdout@).len() > 0 {
        None
    } else {
        Some(command + " exited with status "@ + status_text(out.status) + ": "@ + trim(out.stderr@))
    }
}

/// `pacman -Qu` exits non-zero in benign situations (e.g. no updates on some
/// versions); anything above 1 with empty stdout is reported as a warning.
fn check_listing_status(command: &str, out: &CommandOutput, warnings: &mut Vec<String>)
    ensures
        match listing_warning(command@, *out) {
            Some(w) => final(warnings)@.len() == old(warnings)@.len() + 1 && final(warnings)@.last()@
                == w && final(warnings)@.drop_last() == old(warnings)@,
            None => final(warnings)@ == old(warnings)@,
        },
{
    let listed = trim_chars(&chars_of(out.stdout.as_str()));
    if listed.len() > 0 {
        return;
    }
    match out.status {
        Some(0) | Some(1) => {},
        _ => {
            let mut w = string_of(command);
            push_str(&mut w, " exited with status ");
            let st = status_string(out.status);
            push_str(&mut w, st.as_str());
            push_str(&mut w, ": ");
            let trimmed = trim_chars(&chars_of(out.stderr.as_str()));
            let t = string_from_chars(&trimmed);
            push_str(&mut w, t.as_str());
            warnings.push(w);
        },
    }
}

/// The candidate one listing line describes: `name old -> new`, possibly
/// followed by annotations. Empty, `[ignored]`, malformed and invalid-name
/// lines describe none.
pub open spec fn qu_line(line: Seq<char>) -> Option<(Seq<char>, Seq<char>, Seq<char>)> {
    let t = trim(line);
    if t.len() == 0 || contains(t, "[ignored]"@) {
        None
    } else {
        let w = words(t);
        if w.len() < 4 || w[2] != "->"@ || !valid_name(w[0]) {
            None
        } else {
            Some((w[0], w[1], w[3]))
        }
    }
}

/// The candidates of a listing, line by line.
pub open spec fn qu_candidates(ls: Seq<Seq<char>>) -> Seq<(Seq<char>, Seq<char>, Seq<char>)>
    decreases ls.len(),
{
    if ls.len() == 0 {
        seq![]
    } else {
        let rest = qu_candidates(ls.drop_last());
        match qu_line(ls.last()) {
            Some(c) => rest.push(c),
            None => rest,
        }
    }
}

/// Name, installed version, candidate version and source of a candidate.
pub open spec fn candidate_view(c: UpgradeCandidate) -> (Seq<char>, Seq<char>, Seq<char>, PackageSource) {
    (c.name@, c.installed_version@, c.candidate_version@, c.source)
}

pub open spec fn candidate_views(cs: Seq<UpgradeCandidate>) -> Seq<
    (Seq<char>, Seq<char>, Seq<char>, PackageSource),
> {
    cs.map_values(|c: UpgradeCandidate| candidate_view(c))
}

/// The parsed lines tagged with `source`.
pub open spec fn tagged(
    cs: Seq<(Seq<char>, Seq<char>, Seq<char>)>,
    source: PackageSource,
) -> Seq<(Seq<char>, Seq<char>, Seq<char>, PackageSource)> {
    cs.map_values(|c: (Seq<char>, Seq<char>, Seq<char>)| (c.0, c.1, c.2, source))
}

/// One listing line's candidate, if any.
fn parse_qu_line(line: &Vec<char>, source: PackageSource) -> (r: Option<UpgradeCandidate>)
    ensures
        match r {
            Some(c) => qu_line(line@) matches Some(t) && candidate_view(c) == (t.0, t.1, t.2, source),
            None => qu_line(line@) is None,
        },
{
    let t = trim_chars(line);
    let ignored = chars_of("[ignored]");
    if t.len() == 0 || contains_exec(&t, &ignored) {
        return None;
    }
    let w = words_of(&t);
    if w.len() < 4 {
        return None;
    }
    let arrow = chars_of("->");
    let name = string_from_chars(&w[0]);
    if !chars_eq(&w[2], &arrow) || !is_valid_package_name(name.as_str()) {
        return None;
    }
    Some(
        UpgradeCandidate {
            name,
            installed_version: string_from_chars(&w[1]),
            candidate_version: string_from_chars(&w[3]),
            source,
        },
    )
}

/// Parse `pacman -Qu` / `<helper> -Qua` output.
///
/// Lines look like `name 1.0-1 -> 1.1-1` and may carry annotations such as
/// `[ignored]`. Ignored lines are skipped: the user pinned those packages.
/// Malformed lines are skipped defensively.
pub fn parse_qu_output(output: &str, source: PackageSource) -> (r: Vec<UpgradeCandidate>)
    ensures
        candidate_views(r@) == tagged(qu_candidates(lines(output@)), source),
{
    let text = chars_of(output);
    let ls = lines_of(&text);
    let ghost lv = lines(output@);
    let mut candidates: Vec<UpgradeCandidate> = Vec::new();
    let n = ls.len();
    for i in 0..n
        invariant
            n == ls@.len() == lv.len(),
            lv == lines(output@),
            forall|k: int| 0 <= k < n ==> #[trigger] ls@[k]@ == lv[k],
            candidate_views(candidates@) == tagged(qu_candidates(lv.take(i as int)), source),
    {
        assert(lv.take(i + 1).drop_last() == lv.take(i as int));
        assert(lv.take(i + 1).last() == ls@[i as int]@);
        let ghost before = candidates@;
        match parse_qu_line(&ls[i], source) {
            Some(c) => {
                candidates.push(c);
                assert(candidate_views(candidates@) == candidate_views(before).push(
                    candidate_view(candidates@.last()),
                ));
                assert(tagged(qu_candidates(lv.take(i + 1)), source) == tagged(
                    qu_candidates(lv.take(i as int)),
                    source,
                ).push(candidate_view(candidates@.last())));
            },
            None => {},
        }
    }
    assert(lv.take(n as int) == lv);
    candidates
}

/// Whether `s` contains `v`.
pub open spec fn has_source(s: Seq<PackageSource>, v: PackageSource) -> bool {
    exists|i: int| 0 <= i < s.len() && s[i] == v
}

fn has_source_exec(s: &[PackageSource], v: PackageSource) -> (r: bool)
    ensures
        r == has_source(s@, v),
{
    let n = s.len();
    for i in 0..n
        invariant
            n == s@.len(),
            forall|k: int| 0 <= k < i ==> s@[k] != v,
    {
        if s[i] == v {
            return true;
        }
    }
    false
}

/// Whether some element of `cs` before position `end` is named `name`.
pub open spec fn named_before(cs: Seq<(Seq<char>, Seq<char>, Seq<char>, PackageSource)>, name: Seq<
    char,
>, end: int) -> bool {
    exists|k: int| 0 <= k < end && cs[k].0 == name
}

/// `cs` with every entry whose name already appeared dropped: the first
/// occurrence of each name wins.
pub open spec fn first_by_name(cs: Seq<(Seq<char>, Seq<char>, Seq<char>, PackageSource)>) -> Seq<
    (Seq<char>, Seq<char>, Seq<char>, PackageSource),
>
    decreases cs.len(),
{
    if cs.len() == 0 {
        seq![]
    } else {
        let rest = first_by_name(cs.drop_last());
        if named_before(cs, cs.last().0, cs.len() - 1) {
            rest
        } else {
            rest.push(cs.last())
        }
    }
}

/// No two entries share a name.
pub open spec fn names_distinct(cs: Seq<(Seq<char>, Seq<char>, Seq<char>, PackageSource)>) -> bool {
    forall|i: int, j: int| 0 <= i < j < cs.len() ==> cs[i].0 != cs[j].0
}

/// Every entry kept is an entry of the input, and no two kept entries share
/// a name.
proof fn lemma_first_by_name(cs: Seq<(Seq<char>, Seq<char>, Seq<char>, PackageSource)>)
    ensures
        names_distinct(first_by_name(cs)),
        forall|i: int|
            0 <= i < first_by_name(cs).len() ==> cs.contains(#[trigger] first_by_name(cs)[i]),
    decreases cs.len(),
{
    if cs.len() > 0 {
        let p = cs.drop_last();
        lemma_first_by_name(p);
        let rest = first_by_name(p);
        let last = cs.last();
        assert forall|i: int| 0 <= i < rest.len() implies cs.contains(#[trigger] rest[i]) by {
            let k = choose|k: int| 0 <= k < p.len() && p[k] == rest[i];
            assert(cs[k] == p[k]);
        }
        if !named_before(cs, last.0, cs.len() - 1) {
            let r = rest.push(last);
            assert forall|i: int| 0 <= i < rest.len() implies rest[i].0 != last.0 by {
                let k = choose|k: int| 0 <= k < p.len() && p[k] == rest[i];
                assert(cs[k] == p[k]);
            }
            assert forall|i: int, j: int| 0 <= i < j < r.len() implies r[i].0 != r[j].0 by {
                if j == r.len() - 1 {
                    assert(r[i] == rest[i]);
                } else {
                    assert(r[i] == rest[i] && r[j] == rest[j]);
                }
            }
            assert forall|i: int| 0 <= i < r.len() implies cs.contains(#[trigger] r[i]) by {
                if i < rest.len() {
                    assert(r[i] == rest[i]);
                } else {
                    assert(cs[cs.len() - 1] == r[i]);
                }
            }
        }
    }
}

/// Defensive dedupe: the first candidate of each name is kept.
fn dedupe_by_name(candidates: Vec<UpgradeCandidate>) -> (r: Vec<UpgradeCandidate>)
    ensures
        candidate_views(r@) == first_by_name(candidate_views(candidates@)),
{
    let ghost cs = candidate_views(candidates@);
    let mut kept: Vec<UpgradeCandidate> = Vec::new();
    let n = candidates.len();
    for i in 0..n
        invariant
            n == candidates@.len() == cs.len(),
            cs == candidate_views(candidates@),
            candidate_views(kept@) == first_by_name(cs.take(i as int)),
    {
        let c = &candidates[i];
        let cn = chars_of(c.name.as_str());
        let mut seen = false;
        for a in 0..i
            invariant
                n == candidates@.len() == cs.len(),
                cs == candidate_views(candidates@),
                i < n,
                cn@ == c.name@,
                c == candidates@[i as int],
                seen == exists|b: int| 0 <= b < a && #[trigger] cs[b].0 == c.name@,
        {
            let earlier_name = chars_of(candidates[a].name.as_str());
            assert(cs[a as int].0 == candidates@[a as int].name@);
            if chars_eq(&earlier_name, &cn) {
                seen = true;
            }
        }
        let ghost t = cs.take(i + 1);
        assert(t.drop_last() == cs.take(i as int));
        assert(t.last() == candidate_view(*c));
        assert(named_before(t, c.name@, i as int) == seen) by {
            if seen {
                let b = choose|b: int| 0 <= b < i && #[trigger] cs[b].0 == c.name@;
                assert(t[b] == cs[b]);
            }
            if named_before(t, c.name@, i as int) {
                let k = choose|k: int| 0 <= k < i && t[k].0 == c.name@;
                assert(t[k] == cs[k]);
            }
        }
        if !seen {
            let ghost before = kept@;
            kept.push(c.duplicate());
            assert(candidate_views(kept@) == candidate_views(before).push(candidate_view(*c)));
        }
    }
    assert(cs.take(n as int) == cs);
    kept
}

/// Every parsed line names a valid package.
proof fn lemma_qu_valid(ls: Seq<Seq<char>>)
    ensures
        forall|i: int|
            0 <= i < qu_candidates(ls).len() ==> valid_name(#[trigger] qu_candidates(ls)[i].0),
    decreases ls.len(),
{
    if ls.len() > 0 {
        lemma_qu_valid(ls.drop_last());
        let rest = qu_candidates(ls.drop_last());
        match qu_line(ls.last()) {
            Some(c) => {
                assert forall|i: int| 0 <= i < rest.push(c).len() implies valid_name(
                    #[trigger] rest.push(c)[i].0,
                ) by {
                    if i < rest.len() {
                        assert(rest.push(c)[i] == rest[i]);
                    }
                }
            },
            None => {},
        }
    }
}

/// A discovered candidate is well-formed for the configuration: its name is
/// valid, its source is enabled, and AUR candidates only come with a helper.
pub open spec fn admissible(c: UpgradeCandidate, sources: Seq<PackageSource>, helper: AurHelper) -> bool {
    &&& valid_name(c.name@)
    &&& has_source(sources, c.source)
    &&& (c.source == PackageSource::Aur ==> helper.program_spec() is Some)
}

/// Appending a parsed listing keeps every candidate admissible.
proof fn lemma_append_admissible(
    before: Seq<UpgradeCandidate>,
    found: Seq<UpgradeCandidate>,
    out: Seq<char>,
    source: PackageSource,
    sources: Seq<PackageSource>,
    helper: AurHelper,
)
    requires
        forall|i: int| 0 <= i < before.len() ==> admissible(#[trigger] before[i], sources, helper),
        candidate_views(found) == tagged(qu_candidates(lines(out)), source),
        has_source(sources, source),
        source == PackageSource::Aur ==> helper.program_spec() is Some,
    ensures
        forall|i: int|
            0 <= i < (before + found).len() ==> admissible(#[trigger] (before + found)[i], sources, helper),
{
    lemma_qu_valid(lines(out));
    assert forall|i: int| 0 <= i < (before + found).len() implies admissible(
        #[trigger] (before + found)[i],
        sources,
        helper,
    ) by {
        if i >= before.len() {
            let j = i - before.len();
            let q = qu_candidates(lines(out));
            assert(candidate_views(found).len() == found.len());
            assert(tagged(q, source).len() == q.len());
            assert(candidate_views(found)[j] == candidate_view(found[j]));
            assert(tagged(q, source)[j] == (q[j].0, q[j].1, q[j].2, source));
            assert(valid_name(q[j].0));
            assert((before + found)[i] == found[j]);
        }
    }
}

/// The candidates one listing reports, tagged with its source; none when
/// the listing was not run.
pub open spec fn listed(out: Option<Seq<char>>, source: PackageSource) -> Seq<
    (Seq<char>, Seq<char>, Seq<char>, PackageSource),
> {
    match out {
        Some(o) => tagged(qu_candidates(lines(o)), source),
        None => seq![],
    }
}

/// What discovery reports from the repository and AUR listings (`None`
/// when a listing was not run): repository candidates first, then AUR
/// ones, the first candidate of each name kept.
pub open spec fn discovered(repo: Option<Seq<char>>, aur: Option<Seq<char>>) -> Seq<
    (Seq<char>, Seq<char>, Seq<char>, PackageSource),
> {
    first_by_name(listed(repo, PackageSource::Repo) + listed(aur, PackageSource::Aur))
}

/// Every kept entry is the first entry of its name.
proof fn lemma_first_by_name_first(cs: Seq<(Seq<char>, Seq<char>, Seq<char>, PackageSource)>)
    ensures
        forall|i: int|
            0 <= i < first_by_name(cs).len() ==> exists|k: int|
                0 <= k < cs.len() && cs[k] == #[trigger] first_by_name(cs)[i] && !named_before(
                    cs,
                    cs[k].0,
                    k,
                ),
    decreases cs.len(),
{
    if cs.len() > 0 {
        let p = cs.drop_last();
        lemma_first_by_name_first(p);
        let rest = first_by_name(p);
        assert forall|i: int| 0 <= i < rest.len() implies exists|k: int|
            0 <= k < cs.len() && cs[k] == #[trigger] rest[i] && !named_before(cs, cs[k].0, k) by {
            let k = choose|k: int|
                0 <= k < p.len() && p[k] == rest[i] && !named_before(p, p[k].0, k);
            assert(cs[k] == p[k]);
            if named_before(cs, cs[k].0, k) {
                let j = choose|j: int| 0 <= j < k && cs[j].0 == cs[k].0;
                assert(p[j] == cs[j]);
            }
        }
        if !named_before(cs, cs.last().0, cs.len() - 1) {
            let r = rest.push(cs.last());
            assert forall|i: int| 0 <= i < r.len() implies exists|k: int|
                0 <= k < cs.len() && cs[k] == #[trigger] r[i] && !named_before(cs, cs[k].0, k) by {
                if i < rest.len() {
                    assert(r[i] == rest[i]);
                } else {
                    assert(cs[cs.len() - 1] == r[i]);
                }
            }
        }
    }
}

/// Defensive dedupe prefers the repositories: a name that the repository
/// listing reports is kept as the repository's candidate, even when the AUR
/// helper reports it too.
pub proof fn lemma_repository_candidate_wins(
    repo: Option<Seq<char>>,
    aur: Option<Seq<char>>,
    i: int,
    k: int,
)
    requires
        0 <= i < discovered(repo, aur).len(),
        0 <= k < listed(repo, PackageSource::Repo).len(),
        listed(repo, PackageSource::Repo)[k].0 == discovered(repo, aur)[i].0,
    ensures
        discovered(repo, aur)[i].3 == PackageSource::Repo,
{
    let r = listed(repo, PackageSource::Repo);
    let cs = r + listed(aur, PackageSource::Aur);
    lemma_first_by_name_first(cs);
    let x = first_by_name(cs)[i];
    let j = choose|j: int| 0 <= j < cs.len() && cs[j] == x && !named_before(cs, cs[j].0, j);
    assert(cs[k] == r[k]);
    if j > k {
        assert(named_before(cs, cs[j].0, j));
    }
    assert(cs[j] == r[j]);
}

/// The warnings a listing command leaves: none or one.
pub open spec fn listing_warnings(command: Seq<char>, out: CommandOutput) -> Seq<Seq<char>> {
    match listing_warning(command, out) {
        Some(w) => seq![w],
        None => seq![],
    }
}

/// The warning left when the AUR helper cannot be run.
pub open spec fn aur_unavailable(e: Error) -> Seq<char> {
    "AUR discovery unavailable ("@ + e.text() + "); continuing with repository packages only"@
}

/// The warnings of discovery, from what `pacman -Qu` returned (`repo`, when
/// it ran) and what the helper's `-Qua` call returned (`aur`, when it ran).
pub open spec fn discovery_warnings(
    helper: AurHelper,
    sources: Seq<PackageSource>,
    repo: Option<CommandOutput>,
    aur: Option<Result<CommandOutput>>,
) -> Seq<Seq<char>> {
    (match repo {
        Some(o) => listing_warnings("pacman -Qu"@, o),
        None => seq![],
    }) + if !has_source(sources, PackageSource::Aur) {
        seq![]
    } else {
        match helper.program_spec() {
            Some(p) => match aur {
                Some(Ok(o)) => listing_warnings(p + " -Qua"@, o),
                Some(Err(e)) => seq![aur_unavailable(e)],
                None => seq![],
            },
            None => if !has_source(sources, PackageSource::Repo) {
                seq!["sources = [\"aur\"] but aur_helper = \"none\"; no AUR discovery possible"@]
            } else {
                seq![]
            },
        }
    }
}

/// The listing a successful call printed.
pub open spec fn printed(out: Option<CommandOutput>) -> Option<Seq<char>> {
    match out {
        Some(o) => Some(o.stdout@),
        None => None,
    }
}

/// The listing the helper printed, when its call succeeded.
pub open spec fn printed_if_ok(out: Option<Result<CommandOutput>>) -> Option<Seq<char>> {
    match out {
        Some(Ok(o)) => Some(o.stdout@),
        _ => None,
    }
}

/// The arguments of the upgrade listing, `-Qu` (pacman) and `-Qua` (the
/// AUR helper).
pub open spec fn listing_args_spec(aur: bool) -> Seq<Seq<char>> {
    if aur {
        seq!["-Qua"@]
    } else {
        seq!["-Qu"@]
    }
}

pub fn listing_args(aur: bool) -> (r: [&'static str; 1])
    ensures
        str_views(r@) == listing_args_spec(aur),
{
    let r: [&'static str; 1] = if aur {
        ["-Qua"]
    } else {
        ["-Qu"]
    };
    assert(str_views(r@) =~= listing_args_spec(aur));
    r
}

/// What discovery reports from what the listings returned: `repo` is the
/// output of `pacman -Qu` when it ran, `aur` what the helper's `-Qua` call
/// returned when it ran. Candidates are those the listings printed (the
/// repository's first, one per name); warnings are those of
/// [`discovery_warnings`].
pub fn discovery_outcome(
    helper: AurHelper,
    sources: &[PackageSource],
    repo: Option<CommandOutput>,
    aur: Option<Result<CommandOutput>>,
) -> (r: (Vec<UpgradeCandidate>, Vec<String>))
    ensures
        candidate_views(r.0@) == discovered(printed(repo), printed_if_ok(aur)),
        r.1@.map_values(|w: String| w@) == discovery_warnings(helper, sources@, repo, aur),
        names_distinct(candidate_views(r.0@)),
        (repo is Some ==> has_source(sources@, PackageSource::Repo)) && (aur is Some ==> has_source(
            sources@,
            PackageSource::Aur,
        ) && helper.program_spec() is Some) ==> forall|i: int|
            0 <= i < r.0@.len() ==> admissible(#[trigger] r.0@[i], sources@, helper),
{
    let ghost ok_sources = (repo is Some ==> has_source(sources@, PackageSource::Repo)) && (aur is Some
        ==> has_source(sources@, PackageSource::Aur) && helper.program_spec() is Some);
    let mut warnings: Vec<String> = Vec::new();
    let mut candidates: Vec<UpgradeCandidate> = Vec::new();
    let want_repo = has_source_exec(sources, PackageSource::Repo);
    let want_aur = has_source_exec(sources, PackageSource::Aur);
    let ghost ro = printed(repo);
    let ghost ao = printed_if_ok(aur);
    if let Some(repo_out) = &repo {
        check_listing_status("pacman -Qu", repo_out, &mut warnings);
        assert(warnings@.map_values(|w: String| w@) =~= listing_warnings("pacman -Qu"@, *repo_out));
        let mut found = parse_qu_output(repo_out.stdout.as_str(), PackageSource::Repo);
        proof {
            if ok_sources {
                lemma_append_admissible(candidates@, found@, repo_out.stdout@, PackageSource::Repo, sources@, helper);
            }
        }
        let ghost f = found@;
        candidates.append(&mut found);
        assert(candidate_views(candidates@) =~= candidate_views(f));
    }
    assert(ok_sources ==> forall|i: int| 0 <= i < candidates@.len() ==> admissible(#[trigger] candidates@[i], sources@, helper));
    assert(candidate_views(candidates@) == listed(ro, PackageSource::Repo));
    if let Some(Ok(aur_out)) = &aur {
        let mut found = parse_qu_output(aur_out.stdout.as_str(), PackageSource::Aur);
        proof {
            if ok_sources {
                lemma_append_admissible(candidates@, found@, aur_out.stdout@, PackageSource::Aur, sources@, helper);
            }
        }
        let ghost before = candidates@;
        let ghost f = found@;
        candidates.append(&mut found);
        assert(candidate_views(candidates@) =~= candidate_views(before) + candidate_views(f));
    }
    if want_aur {
        match helper.program() {
            Some(program) => match &aur {
                Some(Ok(aur_out)) => {
                    let mut command = string_of(program);
                    push_str(&mut command, " -Qua");
                    let ghost before_w = warnings@;
                    check_listing_status(command.as_str(), aur_out, &mut warnings);
                    assert(warnings@.map_values(|w: String| w@) =~= before_w.map_values(
                        |w: String| w@,
                    ) + listing_warnings(command@, *aur_out));
                },
                Some(Err(e)) => {
                    let mut w = string_of("AUR discovery unavailable (");
                    let m = e.message();
                    push_str(&mut w, m.as_str());
                    push_str(&mut w, "); continuing with repository packages only");
                    let ghost before_w = warnings@;
                    warnings.push(w);
                    assert(warnings@.map_values(|w: String| w@) =~= before_w.map_values(
                        |w: String| w@,
                    ) + seq![aur_unavailable(*e)]);
                },
                None => {},
            },
            None => {
                if !want_repo {
                    let ghost before_w = warnings@;
                    warnings.push(
                        string_of(
                            "sources = [\"aur\"] but aur_helper = \"none\"; no AUR discovery possible",
                        ),
                    );
                    assert(warnings@.map_values(|w: String| w@) =~= before_w.map_values(
                        |w: String| w@,
                    ) + seq!["sources = [\"aur\"] but aur_helper = \"none\"; no AUR discovery possible"@]);
                }
            },
        }
    }
    assert(warnings@.map_values(|w: String| w@) =~= discovery_warnings(helper, sources@, repo, aur));
    let ghost cands = candidates@;
    let ghost all = candidate_views(candidates@);
    assert(all == listed(ro, PackageSource::Repo) + listed(ao, PackageSource::Aur));
    let kept = dedupe_by_name(candidates);
    proof {
        lemma_first_by_name(all);
        assert(candidate_views(kept@).len() == kept@.len());
        if ok_sources {
            assert forall|i: int| 0 <= i < kept@.len() implies admissible(#[trigger] kept@[i], sources@, helper) by {
                assert(candidate_views(kept@)[i] == candidate_view(kept@[i]));
                assert(all.contains(first_by_name(all)[i]));
                let k = choose|k: int| 0 <= k < all.len() && all[k] == first_by_name(all)[i];
                assert(all[k] == candidate_view(cands[k]));
                assert(admissible(cands[k], sources@, helper));
            }
        }
        assert(candidate_views(kept@) == discovered(ro, ao));
    }
    (kept, warnings)
}

/// Discover all upgrade candidates from the enabled sources: `pacman -Qu`
/// when the repositories are enabled, then the helper's `-Qua` when the AUR
/// is enabled and a helper is configured, and [`discovery_outcome`] of what
/// they returned. Only a failed repository listing is an error. The AUR
/// helper is optional: when it is missing or its listing fails, only
/// repository upgrades are reported and a warning is recorded. A disabled
/// helper turns AUR discovery off entirely (no warning — repo-only is the
/// explicit configuration).
pub fn discover<R: CommandRunner>(runner: &R, helper: AurHelper, sources: &[PackageSource]) -> (r:
    Result<(Vec<UpgradeCandidate>, Vec<String>)>)
    ensures
        r matches Ok((cs, ws)) ==> {
            &&& names_distinct(candidate_views(cs@))
            &&& forall|i: int| 0 <= i < cs@.len() ==> admissible(#[trigger] cs@[i], sources@, helper)
            &&& exists|rr: Option<CommandOutput>, ar: Option<Result<CommandOutput>>|
                #![trigger discovery_warnings(helper, sources@, rr, ar)]
                {
                    &&& candidate_views(cs@) == discovered(printed(rr), printed_if_ok(ar))
                    &&& ws@.map_values(|w: String| w@) == discovery_warnings(
                        helper,
                        sources@,
                        rr,
                        ar,
                    )
                    &&& (rr is Some <==> has_source(sources@, PackageSource::Repo))
                    &&& (rr matches Some(o) ==> runner.replied(
                        "pacman"@,
                        listing_args_spec(false),
                        Ok(o),
                    ))
                    &&& (ar is Some <==> has_source(sources@, PackageSource::Aur)
                        && helper.program_spec() is Some)
                    &&& (ar matches Some(x) ==> runner.replied(
                        helper.program_spec()->0,
                        listing_args_spec(true),
                        x,
                    ))
                }
        },
        r matches Err(e) ==> has_source(sources@, PackageSource::Repo) && runner.replied(
            "pacman"@,
            listing_args_spec(false),
            Err(e),
        ),
        !has_source(sources@, PackageSource::Repo) && !has_source(sources@, PackageSource::Aur)
            ==> (r matches Ok((cs, ws)) && cs@.len() == 0 && ws@.len() == 0),
        !has_source(sources@, PackageSource::Repo) && has_source(sources@, PackageSource::Aur)
            && helper.program_spec() is None ==> (r matches Ok((cs, ws)) && cs@.len() == 0
            && ws@.len() == 1 && ws@[0]@
            == "sources = [\"aur\"] but aur_helper = \"none\"; no AUR discovery possible"@),
{
    let want_repo = has_source_exec(sources, PackageSource::Repo);
    let want_aur = has_source_exec(sources, PackageSource::Aur);
    let repo = if want_repo {
        let args = listing_args(false);
        match runner.run("pacman", args.as_slice()) {
            Ok(o) => Some(o),
            Err(e) => {
                return Err(e);
            },
        }
    } else {
        None
    };
    let aur = if want_aur {
        match helper.program() {
            Some(program) => {
                let args = listing_args(true);
                Some(runner.run(program, args.as_slice()))
            },
            None => None,
        }
    } else {
        None
    };
    let r = discovery_outcome(helper, sources, repo, aur);
    proof {
        if !want_repo && !want_aur {
            assert(listed(printed(repo), PackageSource::Repo).len() == 0);
            assert(first_by_name(seq![]).len() == 0);
            assert(discovered(printed(repo), printed_if_ok(aur)) =~= seq![]);
        }
        if !want_repo && want_aur && helper.program_spec() is None {
            assert(listed(printed(repo), PackageSource::Repo).len() == 0);
            assert(listed(printed_if_ok(aur), PackageSource::Aur).len() == 0);
            assert(first_by_name(seq![]).len() == 0);
            assert(discovered(printed(repo), printed_if_ok(aur)) =~= seq![]);
            assert(discovery_warnings(helper, sources@, repo, aur) =~= seq![
                "sources = [\"aur\"] but aur_helper = \"none\"; no AUR discovery possible"@,
            ]);
            assert(r.1@.map_values(|w: String| w@)[0] == r.1@[0]@);
        }
    }
    Ok(r)
}

} // verus!
