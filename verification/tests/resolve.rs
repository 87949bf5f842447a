use pactience::cache::PublicationCache;
use pactience::db::{RepoPackageMeta, SyncDb};
use pactience::discovery::{CommandOutput, CommandRunner};
use pactience::error::{Error, Result};
use pactience::http::{FetchOutcome, HttpClient};
use pactience::logging::{Level, Logger};
use pactience::model::{PackageSource, Publication, PublicationBasis, UpgradeCandidate};
use pactience::publication::archive::ArchivePublicationSource;
use pactience::publication::aur::{AurInfo, AurPublicationSource};
use pactience::publication::{resolve, Sources};

struct NoNetwork;

impl HttpClient for NoNetwork {
    fn get(&self, url: &str) -> Result<FetchOutcome> {
        Err(Error::http(url, "offline"))
    }
}

struct NoGit;

impl CommandRunner for NoGit {
    fn run(&self, program: &str, _args: &[&str]) -> Result<CommandOutput> {
        Err(Error::command(program, "not found"))
    }
}

fn candidate(name: &str, source: PackageSource) -> UpgradeCandidate {
    UpgradeCandidate {
        name: name.to_string(),
        installed_version: "1-1".to_string(),
        candidate_version: "2-1".to_string(),
        source,
    }
}

#[test]
fn repo_falls_back_to_build_date_and_caches() {
    let http = NoNetwork;
    let mut syncdb = SyncDb::default();
    syncdb.insert(RepoPackageMeta {
        name: "foo".to_string(),
        version: "2-1".to_string(),
        build_date: Some(4242),
        ..Default::default()
    });
    let infos: Vec<AurInfo> = vec![];
    let sources: Sources<NoNetwork, NoGit> = Sources {
        archive: ArchivePublicationSource::with_base_url(&http, "https://a.test"),
        aur: AurPublicationSource { infos: &infos, heuristic: false },
        aur_git: None,
        syncdb: &syncdb,
    };
    assert_eq!(sources.aur_mode(), "");
    let mut cache = PublicationCache::new("/x.json", 60);
    let mut log = Logger::new(Level::Warn);
    let p = resolve(&candidate("foo", PackageSource::Repo), &sources, &mut cache, 1000, &mut log, false);
    assert_eq!(p, Publication::known(4242, PublicationBasis::RepoBuildDate));
    assert!(log.take_output().contains("Arch Archive lookup failed"));
    // The second resolution is served by the cache, silently.
    let again = resolve(&candidate("foo", PackageSource::Repo), &sources, &mut cache, 1001, &mut log, false);
    assert_eq!(again, p);
    assert_eq!(log.take_output(), "");
}

#[test]
fn aur_without_git_uses_the_heuristic_when_enabled() {
    let http = NoNetwork;
    let syncdb = SyncDb::default();
    let infos = vec![AurInfo {
        name: "paru-bin".to_string(),
        version: "2-1".to_string(),
        last_modified: Some(77),
        depends: vec![],
    }];
    let sources: Sources<NoNetwork, NoGit> = Sources {
        archive: ArchivePublicationSource::with_base_url(&http, "https://a.test"),
        aur: AurPublicationSource { infos: &infos, heuristic: true },
        aur_git: None,
        syncdb: &syncdb,
    };
    assert_eq!(sources.aur_mode(), "h");
    let mut cache = PublicationCache::new("/x.json", 60);
    let mut log = Logger::new(Level::Debug);
    let p = resolve(&candidate("paru-bin", PackageSource::Aur), &sources, &mut cache, 1000, &mut log, false);
    assert_eq!(p, Publication::known(77, PublicationBasis::AurLastModified));
    let key = PublicationCache::key(PackageSource::Aur, "paru-bin", "2-1", "h");
    assert_eq!(cache.get(&key, 1000), Some(p));
    assert!(log.take_output().contains("info: paru-bin 2-1: published 1970-01-01 (aur-lastmodified (heuristic))"));
}
