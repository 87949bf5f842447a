//! Publication timestamp resolution.
//!
//! Resolution order for repository packages:
//! 1. local cache,
//! 2. the Arch Linux Archive (authoritative),
//! 3. the sync database `%BUILDDATE%` (fallback),
//! 4. unknown.
//!
//! Resolution order for AUR packages:
//! 1. local cache,
//! 2. AUR git history (accurate per-version commit dates),
//! 3. AUR `LastModified` (optional heuristic),
//! 4. unknown.

use vstd::prelude::*;

use crate::cache::{entry_map, lookup, key_spec, CacheEntry, PublicationCache};
use crate::date::{format_date, format_date_spec};
use crate::db::{last_meta_index, SyncDb};
use crate::discovery::CommandRunner;
use crate::error::Result;
use crate::http::HttpClient;
use crate::logging::{Level, Logger};
use crate::model::{PackageSource, Publication, PublicationBasis, UpgradeCandidate};
use crate::text::{push_str, str_eq, string_of};

use self::archive::ArchivePublicationSource;
use self::aur::{aur_publication, AurPublicationSource};
use self::aur_git::AurGitPublicationSource;

pub mod archive;
pub mod aur;
pub mod aur_git;

verus! {

/// A source of publication timestamps for candidate versions.
pub trait PublicationSource {
    fn publication(&self, candidate: &UpgradeCandidate) -> Result<Publication>;
}

/// All sources needed to resolve one candidate, pre-assembled by the caller.
pub struct Sources<'a, H: HttpClient, R: CommandRunner> {
    pub archive: ArchivePublicationSource<'a, H>,
    pub aur: AurPublicationSource<'a>,
    /// AUR git-history source; `None` when disabled via configuration.
    pub aur_git: Option<AurGitPublicationSource<'a, R>>,
    pub syncdb: &'a SyncDb,
}

/// The AUR resolution-mode tag for cache keys: `g` = git, `h` = heuristic.
pub open spec fn aur_mode_spec(git: bool, heuristic: bool) -> Seq<char> {
    if git && heuristic {
        "gh"@
    } else if git {
        "g"@
    } else if heuristic {
        "h"@
    } else {
        ""@
    }
}

/// The repository fallback: `%BUILDDATE%` of the candidate version in the
/// sync database, when it lists that version with a build date.
pub open spec fn build_date_fallback(syncdb: SyncDb, candidate: UpgradeCandidate) -> Publication {
    match syncdb.lookup(candidate.name@) {
        Some(meta) => if meta.version == candidate.candidate_version@ && meta.build_date is Some {
            Publication {
                published_at: meta.build_date,
                basis: PublicationBasis::RepoBuildDate,
            }
        } else {
            Publication::unknown_spec()
        },
        None => Publication::unknown_spec(),
    }
}

/// What the sources can give a candidate, whatever the network and git
/// answer: a dated archive result or the sync database's build date for a
/// repository package; a dated git result (only with the git source on) or
/// the RPC-metadata result for an AUR package.
pub open spec fn resolved_from_sources(
    candidate: UpgradeCandidate,
    syncdb: SyncDb,
    aur_infos: Seq<crate::publication::aur::AurInfo>,
    heuristic: bool,
    git: bool,
    p: Publication,
) -> bool {
    match candidate.source {
        PackageSource::Repo => (p.basis == PublicationBasis::Archive && p.published_at is Some)
            || p == build_date_fallback(syncdb, candidate),
        PackageSource::Aur => (git && p.basis == PublicationBasis::AurGit && p.published_at is Some)
            || p == aur_publication(aur_infos, heuristic, candidate),
    }
}

/// The cache entry recording `p` as fetched at `now`.
pub open spec fn entry_for(p: Publication, now: i64) -> CacheEntry {
    CacheEntry { published_at: p.published_at, basis: p.basis, fetched_at: now }
}

impl<'a, H: HttpClient, R: CommandRunner> Sources<'a, H, R> {
    /// AUR resolution-mode tag for cache keys: `g` = git, `h` = heuristic.
    pub fn aur_mode(&self) -> (r: &'static str)
        ensures
            r@ == aur_mode_spec(self.aur_git is Some, self.aur.heuristic),
    {
        match (self.aur_git.is_some(), self.aur.heuristic) {
            (true, true) => "gh",
            (true, false) => "g",
            (false, true) => "h",
            (false, false) => "",
        }
    }
}

/// The `-v` line describing how `candidate` resolved to `p`.
pub open spec fn report_line(candidate: UpgradeCandidate, p: Publication) -> Seq<char> {
    candidate.name@ + " "@ + candidate.candidate_version@ + match p.published_at {
        Some(ts) => ": published "@ + format_date_spec(ts as int) + " ("@ + p.basis.label() + ")"@,
        None => ": publication time unknown"@,
    }
}

/// `-v` line describing how one candidate resolved.
fn report(candidate: &UpgradeCandidate, publication: &Publication, log: &mut Logger)
    ensures
        final(log).level_spec() == old(log).level_spec(),
        final(log).progress_spec() == old(log).progress_spec(),
        final(log).written() == old(log).written() + (if old(log).shows(Level::Info) {
            old(log).line_text("info"@, report_line(*candidate, *publication))
        } else {
            seq![]
        }),
{
    let mut line = string_of(candidate.name.as_str());
    push_str(&mut line, " ");
    push_str(&mut line, candidate.candidate_version.as_str());
    match publication.published_at {
        Some(ts) => {
            push_str(&mut line, ": published ");
            let date = format_date(ts);
            push_str(&mut line, date.as_str());
            push_str(&mut line, " (");
            push_str(&mut line, publication.basis.as_str());
            push_str(&mut line, ")");
        },
        None => {
            push_str(&mut line, ": publication time unknown");
        },
    }
    proof {
        reveal_strlit(" ");
        reveal_strlit(": published ");
        reveal_strlit(" (");
        reveal_strlit(")");
        reveal_strlit(": publication time unknown");
    }
    assert(line@ =~= report_line(*candidate, *publication));
    log.info(line.as_str());
}

/// `{name}: {text}`.
fn named(candidate: &UpgradeCandidate, text: &str) -> (r: String)
    ensures
        r@ == candidate.name@ + ": "@ + text@,
{
    let mut s = string_of(candidate.name.as_str());
    push_str(&mut s, ": ");
    push_str(&mut s, text);
    s
}

/// `{name}: {before}{error}{after}`.
fn named_error(candidate: &UpgradeCandidate, before: &str, e: &crate::error::Error, after: &str) -> (r:
    String)
    ensures
        r@ == candidate.name@ + ": "@ + before@ + e.text() + after@,
{
    let mut s = named(candidate, before);
    let m = e.message();
    push_str(&mut s, m.as_str());
    push_str(&mut s, after);
    s
}

fn resolve_repo<H: HttpClient, R: CommandRunner>(
    candidate: &UpgradeCandidate,
    sources: &Sources<H, R>,
    log: &mut Logger,
) -> (r: Publication)
    requires
        candidate.source == PackageSource::Repo,
    ensures
        resolved_from_sources(
            *candidate,
            *sources.syncdb,
            sources.aur.infos@,
            sources.aur.heuristic,
            sources.aur_git is Some,
            r,
        ),
        r.published_at is None ==> r == Publication::unknown_spec(),
        final(log).level_spec() == old(log).level_spec(),
        final(log).progress_spec() == old(log).progress_spec(),
{
    match sources.archive.publication(candidate) {
        Ok(p) => {
            if p.published_at.is_some() {
                return p;
            }
            let line = named(candidate, "not found in Arch Archive; trying repo build date");
            log.debug(line.as_str());
        },
        Err(e) => {
            let line = named_error(
                candidate,
                "Arch Archive lookup failed (",
                &e,
                "); falling back to repo build date",
            );
            log.warn(line.as_str());
        },
    }
    // Fallback: %BUILDDATE% of the candidate version in the sync database.
    match sources.syncdb.get(candidate.name.as_str()) {
        Some(meta) => {
            if str_eq(meta.version.as_str(), candidate.candidate_version.as_str()) {
                if let Some(build_date) = meta.build_date {
                    return Publication::known(build_date, PublicationBasis::RepoBuildDate);
                }
            }
        },
        None => {},
    }
    Publication::unknown()
}

fn resolve_aur<H: HttpClient, R: CommandRunner>(
    candidate: &UpgradeCandidate,
    sources: &Sources<H, R>,
    log: &mut Logger,
    repo_present: bool,
) -> (r: Publication)
    requires
        candidate.source == PackageSource::Aur,
    ensures
        resolved_from_sources(
            *candidate,
            *sources.syncdb,
            sources.aur.infos@,
            sources.aur.heuristic,
            sources.aur_git is Some,
            r,
        ),
        r.published_at is None ==> r == Publication::unknown_spec(),
        final(log).level_spec() == old(log).level_spec(),
        final(log).progress_spec() == old(log).progress_spec(),
{
    // Primary: accurate per-version dates from the AUR git history.
    if let Some(git) = &sources.aur_git {
        match git.publication(candidate, repo_present) {
            Ok(p) => {
                if p.published_at.is_some() {
                    return p;
                }
                let line = named(
                    candidate,
                    "version not found in AUR git history; trying weaker AUR sources",
                );
                log.debug(line.as_str());
            },
            Err(e) => {
                let line = named_error(
                    candidate,
                    "AUR git lookup failed (",
                    &e,
                    "); trying weaker AUR sources",
                );
                log.warn(line.as_str());
            },
        }
    }
    // Fallback: LastModified heuristic (only if enabled) or unknown.
    match sources.aur.publication(candidate) {
        Ok(p) => p,
        Err(e) => {
            let line = named_error(
                candidate,
                "publication lookup failed (",
                &e,
                "); treating as unknown",
            );
            log.warn(line.as_str());
            Publication::unknown()
        },
    }
}

/// Resolve the publication info for one candidate, consulting the cache
/// first and storing the result back. Network/parse problems degrade to
/// fallbacks with a warning rather than aborting the run. `repo_present`
/// tells whether the candidate's AUR git clone already exists.
pub fn resolve<H: HttpClient, R: CommandRunner>(
    candidate: &UpgradeCandidate,
    sources: &Sources<H, R>,
    cache: &mut PublicationCache,
    now: i64,
    log: &mut Logger,
    repo_present: bool,
) -> (r: Publication)
    ensures
        ({
            let key = key_spec(
                candidate.source,
                candidate.name@,
                candidate.candidate_version@,
                aur_mode_spec(sources.aur_git is Some, sources.aur.heuristic),
            );
            match lookup(old(cache).view_map(), key, now, old(cache).ttl()) {
                Some(p) => r == p && final(cache).view_map() == old(cache).view_map(),
                None => {
                    &&& resolved_from_sources(
                        *candidate,
                        *sources.syncdb,
                        sources.aur.infos@,
                        sources.aur.heuristic,
                        sources.aur_git is Some,
                        r,
                    )
                    &&& r.published_at is None ==> r == Publication::unknown_spec()
                    &&& final(cache).view_map() == old(cache).view_map().insert(
                        key,
                        entry_for(r, now),
                    )
                },
            }
        }),
        final(cache).ttl() == old(cache).ttl(),
        final(cache).location() == old(cache).location(),
        final(log).level_spec() == old(log).level_spec(),
        final(log).progress_spec() == old(log).progress_spec(),
{
    let key = PublicationCache::key(
        candidate.source,
        candidate.name.as_str(),
        candidate.candidate_version.as_str(),
        sources.aur_mode(),
    );
    if let Some(cached) = cache.get(key.as_str(), now) {
        let mut line = named(candidate, "cache hit (");
        push_str(&mut line, key.as_str());
        push_str(&mut line, ")");
        log.debug(line.as_str());
        report(candidate, &cached, log);
        return cached;
    }
    let publication = match candidate.source {
        PackageSource::Repo => resolve_repo(candidate, sources, log),
        PackageSource::Aur => resolve_aur(candidate, sources, log, repo_present),
    };
    cache.insert(key, &publication, now);
    report(candidate, &publication, log);
    publication
}

/// Resolving again at the same time, with a positive TTL, gives the same
/// publication from the cache: a resolved candidate is never looked up
/// twice while its entry is fresh.
pub proof fn lemma_resolve_is_cached(
    m: Map<Seq<char>, CacheEntry>,
    key: Seq<char>,
    p: Publication,
    now: i64,
    ttl_secs: u64,
)
    requires
        p.published_at is None ==> p == Publication::unknown_spec(),
        p.published_at is None ==> ttl_secs > 0,
    ensures
        lookup(m.insert(key, entry_for(p, now)), key, now, ttl_secs) == Some(p),
{
}

} // verus!
