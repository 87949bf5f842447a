//! Accurate per-version publication dates for AUR packages from git history.
//!
//! Every AUR package is a git repository (`https://aur.archlinux.org/<pkg>.git`).
//! The RPC has no per-version timestamp, but git history does: we walk
//! `.SRCINFO` (which records `pkgver`/`pkgrel`/`epoch` on separate lines)
//! newest-to-oldest and take the oldest commit in the contiguous run whose
//! reconstructed version equals the candidate. That commit's date is when the
//! exact candidate build (including pkgrel rebuilds) first appeared.
//!
//! When `.SRCINFO` is missing or unparseable (very old history), we fall back
//! to the upstream `pkgver=` bump commit in `PKGBUILD`.
//!
//! Repositories are kept as bare clones under the cache directory and only
//! fetched afterwards, so repeat runs are cheap. A failed fetch is tolerated
//! (the existing clone is used); a failed initial clone is an error and the
//! resolver falls back to weaker AUR sources with a warning.

use vstd::prelude::*;

use crate::apply::{debug_quoted, is_valid_package_name, quoted, valid_name};
use crate::discovery::{status_string, status_text, str_views, CommandOutput, CommandRunner};
use crate::error::{Error, Result};
use crate::model::{Publication, PublicationBasis, UpgradeCandidate};
use crate::text::{chars_eq, chars_of, join_path, lines, lines_of, parse_i64, parse_i64_spec,
    path_join, push_char, push_str, slice_chars, string_from_chars, string_of, trim, trim_chars};

use super::archive::after_last_colon;

verus! {

pub const DEFAULT_BASE_URL: &'static str = "https://aur.archlinux.org";

/// The position of the first `c` in `s`.
pub open spec fn first_index(s: Seq<char>, c: char) -> Option<int>
    decreases s.len(),
{
    if s.len() == 0 {
        None
    } else {
        match first_index(s.drop_last(), c) {
            Some(i) => Some(i),
            None => if s.last() == c {
                Some(s.len() - 1)
            } else {
                None
            },
        }
    }
}

/// The position of the last `c` in `s`.
pub open spec fn last_index(s: Seq<char>, c: char) -> Option<int>
    decreases s.len(),
{
    if s.len() == 0 {
        None
    } else if s.last() == c {
        Some(s.len() - 1)
    } else {
        last_index(s.drop_last(), c)
    }
}

proof fn lemma_first_index_bound(s: Seq<char>, c: char)
    ensures
        first_index(s, c) matches Some(i) ==> 0 <= i < s.len() && s[i] == c,
    decreases s.len(),
{
    if s.len() > 0 {
        lemma_first_index_bound(s.drop_last(), c);
    }
}

fn first_index_exec(v: &Vec<char>, c: char) -> (r: Option<usize>)
    ensures
        match r {
            Some(i) => first_index(v@, c) == Some(i as int) && i < v@.len(),
            None => first_index(v@, c) is None,
        },
{
    let n = v.len();
    for i in 0..n
        invariant
            n == v@.len(),
            first_index(v@.take(i as int), c) is None,
    {
        assert(v@.take(i + 1).drop_last() == v@.take(i as int));
        if v[i] == c {
            assert(first_index(v@.take(i + 1), c) == Some(i as int));
            proof {
                lemma_first_index_prefix(v@, c, i as int + 1);
            }
            return Some(i);
        }
    }
    assert(v@.take(n as int) == v@);
    None
}

proof fn lemma_first_index_prefix(s: Seq<char>, c: char, k: int)
    requires
        0 <= k <= s.len(),
        first_index(s.take(k), c) is Some,
    ensures
        first_index(s, c) == first_index(s.take(k), c),
    decreases s.len() - k,
{
    if k < s.len() {
        assert(s.take(k + 1).drop_last() == s.take(k));
        lemma_first_index_prefix(s, c, k + 1);
    } else {
        assert(s.take(k) == s);
    }
}

fn last_index_exec(v: &Vec<char>, c: char) -> (r: Option<usize>)
    ensures
        match r {
            Some(i) => last_index(v@, c) == Some(i as int) && i < v@.len(),
            None => last_index(v@, c) is None,
        },
{
    let mut i = v.len();
    assert(v@.take(i as int) == v@);
    while i > 0
        invariant
            i <= v@.len(),
            last_index(v@, c) == last_index(v@.take(i as int), c),
        decreases i,
    {
        assert(v@.take(i as int).drop_last() == v@.take(i - 1));
        if v[i - 1] == c {
            return Some(i - 1);
        }
        i = i - 1;
    }
    None
}

// ---------------------------------------------------------------------------
// .SRCINFO
// ---------------------------------------------------------------------------

/// A `key = value` line of `.SRCINFO`: split at the first `=`, both sides
/// trimmed; lines without `=` or with an empty value carry nothing.
pub open spec fn srcinfo_entry(line: Seq<char>) -> Option<(Seq<char>, Seq<char>)> {
    let t = trim(line);
    match first_index(t, '=') {
        None => None,
        Some(i) => {
            let value = trim(t.skip(i + 1));
            if value.len() == 0 {
                None
            } else {
                Some((trim(t.take(i)), value))
            }
        },
    }
}

/// The first `pkgver`, `pkgrel` and `epoch` values among `ls`.
pub open spec fn srcinfo_fields(ls: Seq<Seq<char>>) -> (
    Option<Seq<char>>,
    Option<Seq<char>>,
    Option<Seq<char>>,
)
    decreases ls.len(),
{
    if ls.len() == 0 {
        (None, None, None)
    } else {
        let (pkgver, pkgrel, epoch) = srcinfo_fields(ls.drop_last());
        match srcinfo_entry(ls.last()) {
            Some((key, value)) => if key == "pkgver"@ && pkgver is None {
                (Some(value), pkgrel, epoch)
            } else if key == "pkgrel"@ && pkgrel is None {
                (pkgver, Some(value), epoch)
            } else if key == "epoch"@ && epoch is None {
                (pkgver, pkgrel, Some(value))
            } else {
                (pkgver, pkgrel, epoch)
            },
            None => (pkgver, pkgrel, epoch),
        }
    }
}

/// `[epoch:]pkgver[-pkgrel]` as `.SRCINFO` content records it; `None`
/// without a `pkgver`.
pub open spec fn srcinfo_version(content: Seq<char>) -> Option<Seq<char>> {
    let (pkgver, pkgrel, epoch) = srcinfo_fields(lines(content));
    match pkgver {
        None => None,
        Some(v) => Some(
            (match epoch {
                Some(e) => e + seq![':'],
                None => seq![],
            }) + v + (match pkgrel {
                Some(r) => seq!['-'] + r,
                None => seq![],
            }),
        ),
    }
}

fn srcinfo_entry_exec(line: &Vec<char>) -> (r: Option<(Vec<char>, Vec<char>)>)
    ensures
        match r {
            Some((k, v)) => srcinfo_entry(line@) == Some((k@, v@)),
            None => srcinfo_entry(line@) is None,
        },
{
    let t = trim_chars(line);
    match first_index_exec(&t, '=') {
        None => None,
        Some(i) => {
            let after = slice_chars(&t, i + 1, t.len());
            assert(after@ == t@.skip(i + 1));
            let value = trim_chars(&after);
            if value.len() == 0 {
                None
            } else {
                let before = slice_chars(&t, 0, i);
                assert(before@ == t@.take(i as int));
                Some((trim_chars(&before), value))
            }
        },
    }
}

/// Reconstruct the full `[epoch:]pkgver[-pkgrel]` version from `.SRCINFO`
/// content (first `pkgver`/`pkgrel`/`epoch` entries win).
pub fn parse_srcinfo_version(content: &str) -> (r: Option<String>)
    ensures
        match r {
            Some(v) => srcinfo_version(content@) == Some(v@),
            None => srcinfo_version(content@) is None,
        },
{
    let text = chars_of(content);
    let ls = lines_of(&text);
    let ghost lv = lines(content@);
    let pkgver_key = chars_of("pkgver");
    let pkgrel_key = chars_of("pkgrel");
    let epoch_key = chars_of("epoch");
    let mut pkgver: Option<Vec<char>> = None;
    let mut pkgrel: Option<Vec<char>> = None;
    let mut epoch: Option<Vec<char>> = None;
    let n = ls.len();
    for i in 0..n
        invariant
            n == ls@.len() == lv.len(),
            lv == lines(content@),
            forall|k: int| 0 <= k < n ==> #[trigger] ls@[k]@ == lv[k],
            pkgver_key@ == "pkgver"@,
            pkgrel_key@ == "pkgrel"@,
            epoch_key@ == "epoch"@,
            srcinfo_fields(lv.take(i as int)) == (
                match pkgver {
                    Some(v) => Some(v@),
                    None => None,
                },
                match pkgrel {
                    Some(v) => Some(v@),
                    None => None,
                },
                match epoch {
                    Some(v) => Some(v@),
                    None => None,
                },
            ),
    {
        assert(lv.take(i + 1).drop_last() == lv.take(i as int));
        assert(lv.take(i + 1).last() == ls@[i as int]@);
        match srcinfo_entry_exec(&ls[i]) {
            Some((key, value)) => {
                if chars_eq(&key, &pkgver_key) && pkgver.is_none() {
                    pkgver = Some(value);
                } else if chars_eq(&key, &pkgrel_key) && pkgrel.is_none() {
                    pkgrel = Some(value);
                } else if chars_eq(&key, &epoch_key) && epoch.is_none() {
                    epoch = Some(value);
                }
            },
            None => {},
        }
    }
    assert(lv.take(n as int) == lv);
    let v = match pkgver {
        Some(v) => v,
        None => {
            return None;
        },
    };
    let mut version = String::new();
    if let Some(e) = epoch {
        let es = string_from_chars(&e);
        push_str(&mut version, es.as_str());
        push_char(&mut version, ':');
    }
    let vs = string_from_chars(&v);
    push_str(&mut version, vs.as_str());
    if let Some(r) = pkgrel {
        push_char(&mut version, '-');
        let rs = string_from_chars(&r);
        push_str(&mut version, rs.as_str());
    }
    Some(version)
}

// ---------------------------------------------------------------------------
// git output
// ---------------------------------------------------------------------------

/// A `git log --format="%H %ct"` line: the text before the first space and
/// the trimmed number after it.
pub open spec fn history_line(line: Seq<char>) -> Option<(Seq<char>, i64)> {
    match first_index(line, ' ') {
        None => None,
        Some(i) => match parse_i64_spec(trim(line.skip(i + 1))) {
            Some(ts) => Some((line.take(i), ts)),
            None => None,
        },
    }
}

/// The `(sha, timestamp)` entries of a `git log` listing, in order.
pub open spec fn history_entries(ls: Seq<Seq<char>>) -> Seq<(Seq<char>, i64)>
    decreases ls.len(),
{
    if ls.len() == 0 {
        seq![]
    } else {
        match history_line(ls.last()) {
            Some(e) => history_entries(ls.drop_last()).push(e),
            None => history_entries(ls.drop_last()),
        }
    }
}

/// The `(sha, timestamp)` pairs of a history, as plain values.
pub open spec fn history_view(h: Seq<(String, i64)>) -> Seq<(Seq<char>, i64)> {
    h.map_values(|e: (String, i64)| (e.0@, e.1))
}

/// Commits of a `git log --format="%H %ct"` listing, newest first.
pub fn parse_history(stdout: &str) -> (r: Vec<(String, i64)>)
    ensures
        r@.map_values(|e: (String, i64)| (e.0@, e.1)) == history_entries(lines(stdout@)),
{
    let text = chars_of(stdout);
    let ls = lines_of(&text);
    let ghost lv = lines(stdout@);
    let mut out: Vec<(String, i64)> = Vec::new();
    let n = ls.len();
    for i in 0..n
        invariant
            n == ls@.len() == lv.len(),
            lv == lines(stdout@),
            forall|k: int| 0 <= k < n ==> #[trigger] ls@[k]@ == lv[k],
            out@.map_values(|e: (String, i64)| (e.0@, e.1)) == history_entries(lv.take(i as int)),
    {
        assert(lv.take(i + 1).drop_last() == lv.take(i as int));
        assert(lv.take(i + 1).last() == ls@[i as int]@);
        let line = &ls[i];
        let len = line.len();
        if let Some(sp) = first_index_exec(line, ' ') {
            assert(sp < len);
            let after = slice_chars(line, sp + 1, len);
            assert(after@ == line@.skip(sp + 1));
            let ts_text = trim_chars(&after);
            if let Some(ts) = parse_i64(&ts_text) {
                let sha = slice_chars(line, 0, sp);
                assert(sha@ == line@.take(sp as int));
                let ghost before = out@;
                out.push((string_from_chars(&sha), ts));
                assert(out@.map_values(|e: (String, i64)| (e.0@, e.1)) == before.map_values(
                    |e: (String, i64)| (e.0@, e.1),
                ).push((sha@, ts)));
            }
        }
    }
    assert(lv.take(n as int) == lv);
    out
}

/// Commit times of a newest-first listing never increase down the list: no
/// commit predates one listed after it. The AUR is append-only, so a git
/// history that breaks this has forged dates.
pub open spec fn times_descending(ts: Seq<i64>) -> bool {
    forall|i: int| 0 <= i && i + 1 < ts.len() ==> #[trigger] ts[i] >= ts[i + 1]
}

/// The commit times of a history, in order.
pub open spec fn history_times(h: Seq<(String, i64)>) -> Seq<i64> {
    h.map_values(|e: (String, i64)| e.1)
}

/// Whether a newest-first history has plausible (non-increasing) commit
/// times.
pub fn history_is_monotonic(history: &Vec<(String, i64)>) -> (r: bool)
    ensures
        r == times_descending(history_times(history@)),
{
    let ghost ts = history_times(history@);
    let n = history.len();
    if n < 2 {
        return true;
    }
    for i in 0..n - 1
        invariant
            n == history@.len() == ts.len(),
            n >= 2,
            ts == history_times(history@),
            forall|j: int| 0 <= j < i ==> #[trigger] ts[j] >= ts[j + 1],
    {
        if history[i].1 < history[i + 1].1 {
            assert(ts[i as int] < ts[i + 1]);
            return false;
        }
    }
    true
}

/// The trimmed numbers among the lines `ls`, in order.
pub open spec fn listed_times(ls: Seq<Seq<char>>) -> Seq<i64>
    decreases ls.len(),
{
    if ls.len() == 0 {
        seq![]
    } else {
        match parse_i64_spec(trim(ls.last())) {
            Some(t) => listed_times(ls.drop_last()).push(t),
            None => listed_times(ls.drop_last()),
        }
    }
}

/// The commit times of a `git log --format=%ct` listing, in order.
pub fn parse_times(stdout: &str) -> (r: Vec<i64>)
    ensures
        r@ == listed_times(lines(stdout@)),
{
    let text = chars_of(stdout);
    let ls = lines_of(&text);
    let ghost lv = lines(stdout@);
    let mut out: Vec<i64> = Vec::new();
    let n = ls.len();
    for i in 0..n
        invariant
            n == ls@.len() == lv.len(),
            lv == lines(stdout@),
            forall|k: int| 0 <= k < n ==> #[trigger] ls@[k]@ == lv[k],
            out@ == listed_times(lv.take(i as int)),
    {
        assert(lv.take(i + 1).drop_last() == lv.take(i as int));
        assert(lv.take(i + 1).last() == ls@[i as int]@);
        let t = trim_chars(&ls[i]);
        if let Some(ts) = parse_i64(&t) {
            out.push(ts);
        }
    }
    assert(lv.take(n as int) == lv);
    out
}

/// Whether a newest-first list of commit times is non-increasing.
pub fn times_are_monotonic(times: &Vec<i64>) -> (r: bool)
    ensures
        r == times_descending(times@),
{
    let n = times.len();
    if n < 2 {
        return true;
    }
    for i in 0..n - 1
        invariant
            n == times@.len(),
            n >= 2,
            forall|j: int| 0 <= j < i ==> #[trigger] times@[j] >= times@[j + 1],
    {
        if times[i] < times[i + 1] {
            return false;
        }
    }
    true
}

/// The smallest trimmed number among the lines `ls`.
pub open spec fn min_timestamp(ls: Seq<Seq<char>>) -> Option<i64>
    decreases ls.len(),
{
    if ls.len() == 0 {
        None
    } else {
        let rest = min_timestamp(ls.drop_last());
        match parse_i64_spec(trim(ls.last())) {
            Some(t) => match rest {
                Some(m) => Some(
                    if t < m {
                        t
                    } else {
                        m
                    },
                ),
                None => Some(t),
            },
            None => rest,
        }
    }
}

/// The earliest commit time of a `git log --format=%ct` listing.
pub fn earliest_timestamp(stdout: &str) -> (r: Option<i64>)
    ensures
        r == min_timestamp(lines(stdout@)),
{
    let text = chars_of(stdout);
    let ls = lines_of(&text);
    let ghost lv = lines(stdout@);
    let mut best: Option<i64> = None;
    let n = ls.len();
    for i in 0..n
        invariant
            n == ls@.len() == lv.len(),
            lv == lines(stdout@),
            forall|k: int| 0 <= k < n ==> #[trigger] ls@[k]@ == lv[k],
            best == min_timestamp(lv.take(i as int)),
    {
        assert(lv.take(i + 1).drop_last() == lv.take(i as int));
        assert(lv.take(i + 1).last() == ls@[i as int]@);
        let t = trim_chars(&ls[i]);
        if let Some(ts) = parse_i64(&t) {
            best = match best {
                Some(m) => Some(
                    if ts < m {
                        ts
                    } else {
                        m
                    },
                ),
                None => Some(ts),
            };
        }
    }
    assert(lv.take(n as int) == lv);
    best
}

/// The earliest time of a newest-first `git log --format=%ct` listing
/// whose times are monotonic; `None` otherwise or when it lists none.
pub open spec fn plausible_earliest_spec(stdout: Seq<char>) -> Option<i64> {
    if times_descending(listed_times(lines(stdout))) {
        min_timestamp(lines(stdout))
    } else {
        None
    }
}

/// The earliest commit time of a newest-first `git log --format=%ct`
/// listing, or `None` when it lists none or its times are not monotonic
/// (forged history fails safe to unknown).
pub fn plausible_earliest(stdout: &str) -> (r: Option<i64>)
    ensures
        r == plausible_earliest_spec(stdout@),
{
    let times = parse_times(stdout);
    if !times_are_monotonic(&times) {
        return None;
    }
    earliest_timestamp(stdout)
}

/// The `.SRCINFO` versions read at the commits of a history, as plain
/// values (`None` where the file was missing or incomplete).
pub open spec fn version_views(vs: Seq<Option<String>>) -> Seq<Option<Seq<char>>> {
    vs.map_values(|v: Option<String>| opt_view(v))
}

/// The plain value of an optional string.
pub open spec fn opt_view(v: Option<String>) -> Option<Seq<char>> {
    match v {
        Some(s) => Some(s@),
        None => None,
    }
}

/// Whether commit `i` of the history records exactly `wanted`.
pub open spec fn records(vs: Seq<Option<Seq<char>>>, wanted: Seq<char>, i: int) -> bool {
    i < vs.len() && vs[i] == Some(wanted)
}

/// The time of the oldest commit of the run of commits from `i` on that
/// record exactly `wanted`; `None` when commit `i` does not.
pub open spec fn run_from(
    h: Seq<(Seq<char>, i64)>,
    vs: Seq<Option<Seq<char>>>,
    wanted: Seq<char>,
    i: int,
) -> Option<i64>
    decreases h.len() - i,
{
    if i < 0 || i >= h.len() || !records(vs, wanted, i) {
        None
    } else {
        match run_from(h, vs, wanted, i + 1) {
            Some(t) => Some(t),
            None => Some(h[i].1),
        }
    }
}

/// When `wanted` was introduced: in a newest-first history whose commits
/// record the versions `vs`, the time of the oldest commit of the newest
/// run recording exactly `wanted`; `None` when the newest commit does not.
pub open spec fn run_start(h: Seq<(Seq<char>, i64)>, vs: Seq<Option<Seq<char>>>, wanted: Seq<char>) -> Option<i64> {
    run_from(h, vs, wanted, 0)
}

/// The time a version was introduced, from a newest-first `.SRCINFO`
/// history and the versions read at its commits (see [`run_start`]).
pub fn introduced_at(history: &[(String, i64)], versions: &[Option<String>], wanted: &str) -> (r:
    Option<i64>)
    ensures
        r == run_start(history_view(history@), version_views(versions@), wanted@),
{
    let ghost h = history_view(history@);
    let ghost vs = version_views(versions@);
    let mut last: Option<i64> = None;
    let mut i: usize = 0;
    let n = history.len();
    while i < n && records_exec(versions, i, wanted)
        invariant
            n == history@.len() == h.len(),
            h == history_view(history@),
            vs == version_views(versions@),
            i <= n,
            run_start(h, vs, wanted@) == match run_from(h, vs, wanted@, i as int) {
                Some(t) => Some(t),
                None => last,
            },
            i == 0 ==> last is None,
        decreases n - i,
    {
        assert(records(vs, wanted@, i as int));
        assert(h[i as int].1 == history@[i as int].1);
        last = Some(history[i].1);
        i = i + 1;
    }
    assert(run_from(h, vs, wanted@, i as int) is None);
    last
}

/// Whether the version read at commit `i` is exactly `wanted`.
fn records_exec(versions: &[Option<String>], i: usize, wanted: &str) -> (r: bool)
    ensures
        r == records(version_views(versions@), wanted@, i as int),
{
    if i >= versions.len() {
        return false;
    }
    match &versions[i] {
        Some(v) => crate::text::str_eq(v.as_str(), wanted),
        None => false,
    }
}

/// The upstream part of a package version: without epoch and `-pkgrel`.
pub open spec fn upstream_version(version: Seq<char>) -> Seq<char> {
    let v = after_last_colon(version);
    match last_index(v, '-') {
        Some(i) => v.take(i),
        None => v,
    }
}

/// `pkgver=<upstream version>`, the PKGBUILD line a version bump adds.
pub fn pkgver_line(version: &str) -> (r: String)
    ensures
        r@ == "pkgver="@ + upstream_version(version@),
{
    let v = crate::publication::archive::after_last_colon_exec(&chars_of(version));
    let upstream = match last_index_exec(&v, '-') {
        Some(i) => slice_chars(&v, 0, i),
        None => v,
    };
    let mut s = string_of("pkgver=");
    let us = string_from_chars(&upstream);
    push_str(&mut s, us.as_str());
    s
}

/// The arguments of `git clone --bare --quiet <url> <repo>`.
pub open spec fn clone_args_spec(url: Seq<char>, repo: Seq<char>) -> Seq<Seq<char>> {
    seq!["clone"@, "--bare"@, "--quiet"@, url, repo]
}

pub fn clone_args<'a>(url: &'a str, repo: &'a str) -> (r: [&'a str; 5])
    ensures
        str_views(r@) == clone_args_spec(url@, repo@),
{
    let r: [&'a str; 5] = ["clone", "--bare", "--quiet", url, repo];
    assert(str_views(r@) =~= clone_args_spec(url@, repo@));
    r
}

/// The arguments of `git -C <repo> fetch --quiet origin`.
pub open spec fn fetch_args_spec(repo: Seq<char>) -> Seq<Seq<char>> {
    seq!["-C"@, repo, "fetch"@, "--quiet"@, "origin"@]
}

pub fn fetch_args<'a>(repo: &'a str) -> (r: [&'a str; 5])
    ensures
        str_views(r@) == fetch_args_spec(repo@),
{
    let r: [&'a str; 5] = ["-C", repo, "fetch", "--quiet", "origin"];
    assert(str_views(r@) =~= fetch_args_spec(repo@));
    r
}

/// The arguments of `git -C <repo> log --format=%H %ct -- .SRCINFO`.
pub open spec fn history_args_spec(repo: Seq<char>) -> Seq<Seq<char>> {
    seq!["-C"@, repo, "log"@, "--format=%H %ct"@, "--"@, ".SRCINFO"@]
}

pub fn history_args<'a>(repo: &'a str) -> (r: [&'a str; 6])
    ensures
        str_views(r@) == history_args_spec(repo@),
{
    let r: [&'a str; 6] = ["-C", repo, "log", "--format=%H %ct", "--", ".SRCINFO"];
    assert(str_views(r@) =~= history_args_spec(repo@));
    r
}

/// The arguments of `git -C <repo> show <object>`.
pub open spec fn show_args_spec(repo: Seq<char>, object: Seq<char>) -> Seq<Seq<char>> {
    seq!["-C"@, repo, "show"@, object]
}

pub fn show_args<'a>(repo: &'a str, object: &'a str) -> (r: [&'a str; 4])
    ensures
        str_views(r@) == show_args_spec(repo@, object@),
{
    let r: [&'a str; 4] = ["-C", repo, "show", object];
    assert(str_views(r@) =~= show_args_spec(repo@, object@));
    r
}

/// The arguments of `git -C <repo> log --format=%ct -S <pickaxe> -- <path>`.
pub open spec fn pickaxe_args_spec(repo: Seq<char>, pickaxe: Seq<char>, path: Seq<char>) -> Seq<
    Seq<char>,
> {
    seq!["-C"@, repo, "log"@, "--format=%ct"@, "-S"@, pickaxe, "--"@, path]
}

pub fn pickaxe_args<'a>(repo: &'a str, pickaxe: &'a str, path: &'a str) -> (r: [&'a str; 8])
    ensures
        str_views(r@) == pickaxe_args_spec(repo@, pickaxe@, path@),
{
    let r: [&'a str; 8] = ["-C", repo, "log", "--format=%ct", "-S", pickaxe, "--", path];
    assert(str_views(r@) =~= pickaxe_args_spec(repo@, pickaxe@, path@));
    r
}

/// The error for a git command that exited unsuccessfully.
pub open spec fn status_error(e: Error, command: Seq<char>, out: CommandOutput) -> bool {
    e matches Error::CommandStatus { command: c, status, stderr } && c@ == command && status@
        == status_text(out.status) && stderr@ == trim(out.stderr@)
}

fn command_status_error(command: String, out: &CommandOutput) -> (e: Error)
    ensures
        status_error(e, command@, *out),
{
    let stderr = string_from_chars(&trim_chars(&chars_of(out.stderr.as_str())));
    Error::CommandStatus { command, status: status_string(out.status), stderr }
}

pub struct AurGitPublicationSource<'a, R: CommandRunner> {
    pub runner: &'a R,
    pub cache_dir: String,
    pub base_url: String,
}

/// The commit times of a history view, in order.
pub open spec fn view_times(h: Seq<(Seq<char>, i64)>) -> Seq<i64> {
    h.map_values(|e: (Seq<char>, i64)| e.1)
}

/// The publication of version `wanted` from a newest-first `.SRCINFO`
/// history `h`, the versions `vs` read at its commits, and the earliest
/// plausible time of the `PKGBUILD` line that introduced it: unknown when
/// the history's commit times are not monotonic (a tampered history);
/// otherwise the start of the newest run of commits recording exactly
/// `wanted`; failing that, the `PKGBUILD` time; failing that, unknown.
pub open spec fn git_publication_spec(
    h: Seq<(Seq<char>, i64)>,
    vs: Seq<Option<Seq<char>>>,
    wanted: Seq<char>,
    pkgbuild_earliest: Option<i64>,
) -> Publication {
    if !times_descending(view_times(h)) {
        Publication::unknown_spec()
    } else {
        match run_start(h, vs, wanted) {
            Some(t) => Publication { published_at: Some(t), basis: PublicationBasis::AurGit },
            None => match pkgbuild_earliest {
                Some(t) => Publication { published_at: Some(t), basis: PublicationBasis::AurGit },
                None => Publication::unknown_spec(),
            },
        }
    }
}

/// Forged histories give no date: whatever the versions and the `PKGBUILD`
/// time, a history whose commit times are not monotonic dates nothing.
pub proof fn lemma_forged_history_is_unknown(
    h: Seq<(Seq<char>, i64)>,
    vs: Seq<Option<Seq<char>>>,
    wanted: Seq<char>,
    pkgbuild_earliest: Option<i64>,
)
    requires
        !times_descending(view_times(h)),
    ensures
        git_publication_spec(h, vs, wanted, pkgbuild_earliest) == Publication::unknown_spec(),
{
}

/// The version a `git show <sha>:.SRCINFO` reply records: none when the
/// command failed (the file is absent there) or the file is incomplete.
pub open spec fn show_version(out: CommandOutput) -> Option<Seq<char>> {
    if out.status == Some(0i32) {
        srcinfo_version(out.stdout@)
    } else {
        None
    }
}

/// The runner replied to `git -C <repo> show <sha>:.SRCINFO` with a reply
/// that records `v` (see [`show_version`]).
pub open spec fn shown_at<R: CommandRunner>(
    runner: &R,
    repo: Seq<char>,
    sha: Seq<char>,
    v: Option<Seq<char>>,
) -> bool {
    exists|out: CommandOutput|
        #[trigger] runner.replied("git"@, show_args_spec(repo, sha + ":.SRCINFO"@), Ok(out)) && v
            == show_version(out)
}

/// `vs` are the versions the runner's replies to `git show` record at the
/// first `vs.len()` commits of the history `h`, in order.
pub open spec fn shown_versions<R: CommandRunner>(
    runner: &R,
    repo: Seq<char>,
    h: Seq<(Seq<char>, i64)>,
    vs: Seq<Option<Seq<char>>>,
) -> bool {
    &&& vs.len() <= h.len()
    &&& forall|i: int| 0 <= i < vs.len() ==> #[trigger] shown_at(runner, repo, h[i].0, vs[i])
}

/// The publication of `wanted` from a `.SRCINFO` history, the versions read
/// at its commits and the `PKGBUILD` time (see [`git_publication_spec`]).
pub fn git_publication(
    history: &Vec<(String, i64)>,
    versions: &Vec<Option<String>>,
    wanted: &str,
    pkgbuild_earliest: Option<i64>,
) -> (r: Publication)
    ensures
        r == git_publication_spec(
            history_view(history@),
            version_views(versions@),
            wanted@,
            pkgbuild_earliest,
        ),
{
    assert(view_times(history_view(history@)) =~= history_times(history@));
    if !history_is_monotonic(history) {
        return Publication::unknown();
    }
    match introduced_at(history.as_slice(), versions.as_slice(), wanted) {
        Some(t) => Publication::known(t, PublicationBasis::AurGit),
        None => match pkgbuild_earliest {
            Some(t) => Publication::known(t, PublicationBasis::AurGit),
            None => Publication::unknown(),
        },
    }
}

impl<'a, R: CommandRunner> AurGitPublicationSource<'a, R> {
    pub fn new(runner: &'a R, cache_dir: String) -> (r: Self)
        ensures
            r.cache_dir == cache_dir,
            r.base_url@ == DEFAULT_BASE_URL@,
    {
        AurGitPublicationSource { runner, cache_dir, base_url: string_of(DEFAULT_BASE_URL) }
    }

    pub fn with_base_url(runner: &'a R, cache_dir: String, base_url: &str) -> (r: Self)
        ensures
            r.cache_dir == cache_dir,
            r.base_url@ == base_url@,
    {
        AurGitPublicationSource { runner, cache_dir, base_url: string_of(base_url) }
    }

    /// The bare clone of `name`: `<cache_dir>/<name>.git`.
    pub fn repo_dir(&self, name: &str) -> (r: String)
        ensures
            r@ == path_join(self.cache_dir@, name@ + ".git"@),
    {
        let mut leaf = string_of(name);
        push_str(&mut leaf, ".git");
        join_path(self.cache_dir.as_str(), leaf.as_str())
    }

    /// `<base_url>/<name>.git`.
    pub fn clone_url(&self, name: &str) -> (r: String)
        ensures
            r@ == self.base_url@ + "/"@ + name@ + ".git"@,
    {
        let mut s = string_of(self.base_url.as_str());
        push_str(&mut s, "/");
        push_str(&mut s, name);
        push_str(&mut s, ".git");
        s
    }

    /// Clone the bare repo on first use, fetch updates afterwards. A failed
    /// fetch is tolerated: the existing clone may be slightly stale but is
    /// still usable (and fully usable offline for already-known versions).
    /// `repo_present` tells whether the clone already exists.
    fn ensure_repo(&self, name: &str, repo: &str, repo_present: bool) -> (r: Result<()>)
        ensures
            repo_present ==> r == Ok::<(), Error>(()) && exists|reply: Result<CommandOutput>|
                #[trigger] self.runner.replied("git"@, fetch_args_spec(repo@), reply),
            !repo_present && r is Ok ==> exists|out: CommandOutput|
                #[trigger] self.runner.replied(
                    "git"@,
                    clone_args_spec(self.base_url@ + "/"@ + name@ + ".git"@, repo@),
                    Ok(out),
                ) && out.status == Some(0i32),
    {
        if repo_present {
            let args = fetch_args(repo);
            let _ = self.runner.run("git", args.as_slice());
            return Ok(());
        }
        let url = self.clone_url(name);
        let args = clone_args(url.as_str(), repo);
        let out = match self.runner.run("git", args.as_slice()) {
            Ok(o) => o,
            Err(e) => {
                return Err(e);
            },
        };
        if out.status != Some(0i32) {
            let mut command = string_of("git clone --bare ");
            push_str(&mut command, url.as_str());
            return Err(command_status_error(command, &out));
        }
        Ok(())
    }

    /// Commits touching `.SRCINFO`, newest first: `(sha, timestamp)`.
    fn srcinfo_history(&self, repo: &str) -> (r: Result<Vec<(String, i64)>>)
        ensures
            r matches Ok(h) ==> exists|out: CommandOutput|
                #[trigger] self.runner.replied("git"@, history_args_spec(repo@), Ok(out))
                    && out.status == Some(0i32) && history_entries(lines(out.stdout@))
                    == history_view(h@),
    {
        let args = history_args(repo);
        let out = match self.runner.run("git", args.as_slice()) {
            Ok(o) => o,
            Err(e) => {
                return Err(e);
            },
        };
        if out.status != Some(0i32) {
            let mut command = string_of("git -C ");
            push_str(&mut command, repo);
            push_str(&mut command, " log -- .SRCINFO");
            return Err(command_status_error(command, &out));
        }
        let h = parse_history(out.stdout.as_str());
        assert(history_entries(lines(out.stdout@)) == history_view(h@));
        Ok(h)
    }

    /// The full `[epoch:]pkgver-pkgrel` version recorded by `.SRCINFO` at a
    /// commit. `None` when the file is missing or incomplete there.
    fn version_at(&self, repo: &str, sha: &str) -> (r: Result<Option<String>>)
        ensures
            r matches Ok(v) ==> shown_at(self.runner, repo@, sha@, opt_view(v)),
    {
        let mut spec = string_of(sha);
        push_str(&mut spec, ":.SRCINFO");
        let args = show_args(repo, spec.as_str());
        let out = match self.runner.run("git", args.as_slice()) {
            Ok(o) => o,
            Err(e) => {
                return Err(e);
            },
        };
        if out.status != Some(0i32) {
            // File absent in this commit: treat as "no version", not fatal.
            return Ok(None);
        }
        let v = parse_srcinfo_version(out.stdout.as_str());
        if let Some(ver) = &v {
            assert(srcinfo_version(out.stdout@) == Some(ver@));
        }
        Ok(v)
    }

    /// Earliest commit timestamp touching `pickaxe` in `path`, if any; none
    /// when the listing's commit times are not monotonic.
    fn pickaxe_date(&self, repo: &str, pickaxe: &str, path: &str) -> (r: Result<Option<i64>>)
        ensures
            r matches Ok(t) ==> exists|out: CommandOutput|
                #[trigger] self.runner.replied("git"@, pickaxe_args_spec(repo@, pickaxe@, path@), Ok(out))
                    && out.status == Some(0i32) && t == plausible_earliest_spec(out.stdout@),
    {
        let args = pickaxe_args(repo, pickaxe, path);
        let out = match self.runner.run("git", args.as_slice()) {
            Ok(o) => o,
            Err(e) => {
                return Err(e);
            },
        };
        if out.status != Some(0i32) {
            let mut command = string_of("git -C ");
            push_str(&mut command, repo);
            push_str(&mut command, " log -S ");
            let q = quoted(pickaxe);
            push_str(&mut command, q.as_str());
            push_str(&mut command, " -- ");
            push_str(&mut command, path);
            return Err(command_status_error(command, &out));
        }
        let t = plausible_earliest(out.stdout.as_str());
        assert(plausible_earliest_spec(out.stdout@) == t);
        Ok(t)
    }

    /// The candidate version's publication from the package's git history:
    /// the oldest commit of the newest run of `.SRCINFO` revisions that
    /// record exactly the candidate version, else the earliest commit that
    /// added its `pkgver=` line to `PKGBUILD`, else unknown. A history whose
    /// commit times are not monotonic gives unknown. The decision is
    /// [`git_publication`] on the replies to `git log` of `.SRCINFO`, to
    /// `git show` at each commit read, and to the `PKGBUILD` pickaxe.
    /// `repo_present` tells whether the bare clone already exists (it is
    /// fetched then, cloned otherwise).
    pub fn publication(&self, candidate: &UpgradeCandidate, repo_present: bool) -> (r: Result<
        Publication,
    >)
        ensures
            !valid_name(candidate.name@) ==> (r matches Err(Error::Parse { what, message }) && what@
                == "package name"@ && message@ == "refusing git lookup for invalid package name "@
                + debug_quoted(candidate.name@)),
            valid_name(candidate.name@) && repo_present ==> exists|reply: Result<CommandOutput>|
                #[trigger] self.runner.replied(
                    "git"@,
                    fetch_args_spec(path_join(self.cache_dir@, candidate.name@ + ".git"@)),
                    reply,
                ),
            valid_name(candidate.name@) && !repo_present && r is Ok ==> exists|out: CommandOutput|
                #[trigger] self.runner.replied(
                    "git"@,
                    clone_args_spec(
                        self.base_url@ + "/"@ + candidate.name@ + ".git"@,
                        path_join(self.cache_dir@, candidate.name@ + ".git"@),
                    ),
                    Ok(out),
                ) && out.status == Some(0i32),
            r matches Ok(p) ==> exists|
                log: CommandOutput,
                vs: Seq<Option<Seq<char>>>,
                pk: Option<i64>,
            |
                #![trigger git_publication_spec(history_entries(lines(log.stdout@)), vs, candidate.candidate_version@, pk)]
                {
                    let repo = path_join(self.cache_dir@, candidate.name@ + ".git"@);
                    let h = history_entries(lines(log.stdout@));
                    &&& p == git_publication_spec(h, vs, candidate.candidate_version@, pk)
                    &&& self.runner.replied("git"@, history_args_spec(repo), Ok(log))
                    &&& log.status == Some(0i32)
                    &&& shown_versions(self.runner, repo, h, vs)
                    &&& (pk matches Some(t) ==> exists|out: CommandOutput|
                        #[trigger] self.runner.replied(
                            "git"@,
                            pickaxe_args_spec(
                                repo,
                                "pkgver="@ + upstream_version(candidate.candidate_version@),
                                "PKGBUILD"@,
                            ),
                            Ok(out),
                        ) && out.status == Some(0i32) && plausible_earliest_spec(out.stdout@)
                            == Some(t))
                },
    {
        let name = candidate.name.as_str();
        if !is_valid_package_name(name) {
            let q = quoted(name);
            let mut message = string_of("refusing git lookup for invalid package name ");
            push_str(&mut message, q.as_str());
            return Err(Error::parse("package name", message.as_str()));
        }
        let repo = self.repo_dir(name);
        match self.ensure_repo(name, repo.as_str(), repo_present) {
            Ok(()) => {},
            Err(e) => {
                return Err(e);
            },
        }
        // Walk .SRCINFO history newest-to-oldest; the candidate's publication
        // is the oldest commit in the contiguous top-run matching it.
        let history = match self.srcinfo_history(repo.as_str()) {
            Ok(h) => h,
            Err(e) => {
                return Err(e);
            },
        };
        let ghost log = choose|out: CommandOutput|
            #[trigger] self.runner.replied("git"@, history_args_spec(repo@), Ok(out))
                && out.status == Some(0i32) && history_entries(lines(out.stdout@))
                == history_view(history@);
        let ghost h = history_view(history@);
        let wanted = candidate.candidate_version.as_str();
        let mut versions: Vec<Option<String>> = Vec::new();
        let mut pkgbuild_earliest: Option<i64> = None;
        // A commit that predates its own parent cannot occur in the
        // append-only AUR: such a history is rejected as tampered, and
        // nothing more is read from the clone.
        if history_is_monotonic(&history) {
            // Read the recorded version at each commit until the run of
            // commits recording the candidate's version ends.
            let n = history.len();
            let mut i: usize = 0;
            while i < n
                invariant
                    n == history@.len() == h.len(),
                    h == history_view(history@),
                    i <= n,
                    versions@.len() <= i,
                    i < n ==> versions@.len() == i,
                    shown_versions(self.runner, repo@, h, version_views(versions@)),
                    valid_name(candidate.name@),
                    repo@ == path_join(self.cache_dir@, candidate.name@ + ".git"@),
                    repo_present ==> exists|reply: Result<CommandOutput>|
                        #[trigger] self.runner.replied("git"@, fetch_args_spec(repo@), reply),
                decreases n - i,
            {
                let sha = &history[i].0;
                assert(h[i as int].0 == sha@);
                let v = match self.version_at(repo.as_str(), sha.as_str()) {
                    Ok(v) => v,
                    Err(e) => {
                        return Err(e);
                    },
                };
                let same = match &v {
                    Some(x) => crate::text::str_eq(x.as_str(), wanted),
                    None => false,
                };
                let ghost before = versions@;
                let ghost vv = opt_view(v);
                versions.push(v);
                proof {
                    let vs = version_views(versions@);
                    assert(vs =~= version_views(before).push(vv));
                    assert forall|j: int| 0 <= j < vs.len() implies #[trigger] shown_at(
                        self.runner,
                        repo@,
                        h[j].0,
                        vs[j],
                    ) by {
                        if j < before.len() {
                            assert(vs[j] == version_views(before)[j]);
                        } else {
                            assert(h[j].0 == sha@);
                        }
                    }
                }
                if same {
                    i = i + 1;
                } else {
                    i = n;
                }
            }
            // Fallback: upstream pkgver bump in PKGBUILD (covers missing
            // .SRCINFO and very old history). Epoch/pkgrel are not part of
            // pkgver there.
            if introduced_at(history.as_slice(), versions.as_slice(), wanted).is_none() {
                let pkgver = pkgver_line(wanted);
                pkgbuild_earliest = match self.pickaxe_date(repo.as_str(), pkgver.as_str(), "PKGBUILD") {
                    Ok(t) => t,
                    Err(e) => {
                        return Err(e);
                    },
                };
            }
        }
        let p = git_publication(&history, &versions, wanted, pkgbuild_earliest);
        assert(history_entries(lines(log.stdout@)) == h);
        assert(shown_versions(self.runner, repo@, h, version_views(versions@)));
        Ok(p)
    }
}

} // verus!
