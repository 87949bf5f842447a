use pactience::cache::{CacheContents, CacheEntry, PublicationCache};
use pactience::model::{PackageSource, Publication, PublicationBasis};

fn cache_with(entries: &[(&str, Option<i64>, i64)], ttl: u64) -> PublicationCache {
    let mut v = Vec::new();
    for (key, published_at, fetched_at) in entries {
        v.push((
            key.to_string(),
            CacheEntry {
                published_at: *published_at,
                basis: PublicationBasis::Archive,
                fetched_at: *fetched_at,
            },
        ));
    }
    PublicationCache::load("/nonexistent/cache.json", ttl, CacheContents::Entries(v)).0
}

#[test]
fn positive_entries_never_expire() {
    let cache = cache_with(&[("repo:foo@1.0-1", Some(1000), 2000)], 60);
    let pub_ = cache.get("repo:foo@1.0-1", 1_000_000).unwrap();
    assert_eq!(pub_.published_at, Some(1000));
    assert_eq!(pub_.basis, PublicationBasis::Archive);
}

#[test]
fn negative_entries_expire_after_ttl() {
    let cache = cache_with(&[("repo:foo@1.0-1", None, 1000)], 60);
    assert!(cache.get("repo:foo@1.0-1", 1050).is_some());
    assert!(cache.get("repo:foo@1.0-1", 1061).is_none());
}

#[test]
fn aur_resolution_mode_changes_cache_key() {
    for (a, b) in [("", "g"), ("g", "gh"), ("", "h"), ("h", "gh")] {
        assert_ne!(
            PublicationCache::key(PackageSource::Aur, "p", "1-1", a),
            PublicationCache::key(PackageSource::Aur, "p", "1-1", b)
        );
    }
    // Repo keys are policy-independent.
    assert_eq!(
        PublicationCache::key(PackageSource::Repo, "p", "1-1", "g"),
        PublicationCache::key(PackageSource::Repo, "p", "1-1", "")
    );
}

#[test]
fn keys_have_the_documented_shape() {
    assert_eq!(PublicationCache::key(PackageSource::Repo, "foo", "1.0-1", ""), "repo:foo@1.0-1");
    assert_eq!(PublicationCache::key(PackageSource::Aur, "foo", "1.0-1", "gh"), "aurgh:foo@1.0-1");
}

#[test]
fn insert_then_get_round_trips_and_replaces() {
    let mut cache = PublicationCache::new("/x/publications.json", 60);
    let key = PublicationCache::key(PackageSource::Repo, "foo", "1.0-1", "");
    cache.insert(key.clone(), &Publication::known(12345, PublicationBasis::RepoBuildDate), 999);
    let p = cache.get(&key, 1000).unwrap();
    assert_eq!(p.published_at, Some(12345));
    assert_eq!(p.basis, PublicationBasis::RepoBuildDate);
    // A newer result for the same key replaces the old one.
    cache.insert(key.clone(), &Publication::unknown(), 2000);
    assert_eq!(cache.get(&key, 2010), Some(Publication::unknown()));
    assert_eq!(cache.entries().len(), 1);
    assert!(cache.get("repo:other@1", 2010).is_none());
}

#[test]
fn zero_ttl_never_serves_negative_entries() {
    let cache = cache_with(&[("k", None, 1000)], 0);
    assert!(cache.get("k", 1000).is_none());
}

#[test]
fn negative_entries_from_the_future_are_not_served() {
    let cache = cache_with(&[("k", None, 5000)], 60);
    assert!(cache.get("k", 1000).is_none());
}

#[test]
fn corrupt_cache_is_a_warning_not_an_error() {
    let (cache, warning) = PublicationCache::load(
        "/tmp/publications.json",
        60,
        CacheContents::Corrupt("expected value at line 1 column 2".to_string()),
    );
    assert_eq!(
        warning.unwrap(),
        "ignoring corrupt cache /tmp/publications.json: expected value at line 1 column 2"
    );
    assert!(cache.entries().is_empty());
    let (cache, warning) = PublicationCache::load("/x.json", 60, CacheContents::Missing);
    assert!(warning.is_none());
    assert!(cache.entries().is_empty());
    let (_, warning) = PublicationCache::load(
        "/x.json",
        60,
        CacheContents::Unreadable("permission denied".to_string()),
    );
    assert_eq!(warning.unwrap(), "cannot read cache /x.json: permission denied");
}
