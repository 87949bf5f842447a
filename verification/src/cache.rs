//! Local cache for publication timestamps.
//!
//! A version's publication date is an immutable historical fact, so positive
//! results never expire. Only negative results ("unknown") are refreshed
//! after `cache_ttl_secs`, because a version may appear in the Archive later.

use vstd::prelude::*;

use crate::model::{PackageSource, Publication, PublicationBasis};
use crate::text::{chars_eq, chars_of, push_str, string_of};

verus! {

/// One cached lookup result.
#[derive(Debug, Clone, Copy, PartialEq, Eq, Structural)]
pub struct CacheEntry {
    pub published_at: Option<i64>,
    pub basis: PublicationBasis,
    pub fetched_at: i64,
}

/// Keyed by `{source}:{name}@{version}`.
pub struct PublicationCache {
    path: String,
    ttl_secs: u64,
    entries: Vec<(String, CacheEntry)>,
}

/// The key-to-entry map a list of entries describes; a later entry for a
/// key replaces an earlier one.
pub open spec fn entry_map(v: Seq<(String, CacheEntry)>) -> Map<Seq<char>, CacheEntry>
    decreases v.len(),
{
    if v.len() == 0 {
        Map::empty()
    } else {
        entry_map(v.drop_last()).insert(v.last().0@, v.last().1)
    }
}

/// What a cache file on disk turned out to hold.
pub enum CacheContents {
    /// There is no cache file.
    Missing,
    /// The file could not be read; the text describes why.
    Unreadable(String),
    /// The file is not a valid cache; the text describes why.
    Corrupt(String),
    /// The entries the file holds.
    Entries(Vec<(String, CacheEntry)>),
}

/// The cache identity of one lookup.
pub open spec fn key_spec(source: PackageSource, name: Seq<char>, version: Seq<char>, aur_mode: Seq<
    char,
>) -> Seq<char> {
    match source {
        PackageSource::Repo => "repo:"@ + name + "@"@ + version,
        PackageSource::Aur => "aur"@ + aur_mode + ":"@ + name + "@"@ + version,
    }
}

/// `a - b`, clamped to the `i64` range (`i64::saturating_sub`).
pub open spec fn saturating_diff(a: i64, b: i64) -> int {
    let d = a - b;
    if d > i64::MAX {
        i64::MAX as int
    } else if d < i64::MIN {
        i64::MIN as int
    } else {
        d
    }
}

/// What looking `key` up at time `now` yields: positive entries always,
/// negative ones while younger than `ttl_secs`.
pub open spec fn lookup(m: Map<Seq<char>, CacheEntry>, key: Seq<char>, now: i64, ttl_secs: u64) -> Option<
    Publication,
> {
    if !m.contains_key(key) {
        None
    } else {
        let e = m[key];
        match e.published_at {
            Some(ts) => Some(Publication { published_at: Some(ts), basis: e.basis }),
            None => {
                let age = saturating_diff(now, e.fetched_at);
                if 0 <= age < ttl_secs {
                    Some(Publication::unknown_spec())
                } else {
                    None
                }
            },
        }
    }
}

/// Replacing the last entry of a key is inserting it into the map.
proof fn lemma_update_last(v: Seq<(String, CacheEntry)>, i: int, x: (String, CacheEntry))
    requires
        0 <= i < v.len(),
        v[i].0@ == x.0@,
        forall|j: int| i < j < v.len() ==> (#[trigger] v[j]).0@ != x.0@,
    ensures
        entry_map(v.update(i, x)) == entry_map(v).insert(x.0@, x.1),
    decreases v.len(),
{
    let u = v.update(i, x);
    if i == v.len() - 1 {
        assert(u.drop_last() == v.drop_last());
        assert(entry_map(u) =~= entry_map(v).insert(x.0@, x.1));
    } else {
        assert(u.drop_last() == v.drop_last().update(i, x));
        lemma_update_last(v.drop_last(), i, x);
        assert(u.last() == v.last());
        assert(v.last().0@ != x.0@);
        assert(entry_map(u) =~= entry_map(v).insert(x.0@, x.1));
    }
}

impl PublicationCache {
    /// The cached entries as a map from key to entry.
    pub closed spec fn view_map(&self) -> Map<Seq<char>, CacheEntry> {
        entry_map(self.entries@)
    }

    pub closed spec fn ttl(&self) -> u64 {
        self.ttl_secs
    }

    pub closed spec fn location(&self) -> Seq<char> {
        self.path@
    }

    /// An empty cache stored at `path`.
    pub fn new(path: &str, ttl_secs: u64) -> (r: Self)
        ensures
            r.view_map() == Map::<Seq<char>, CacheEntry>::empty(),
            r.ttl() == ttl_secs,
            r.location() == path@,
    {
        PublicationCache { path: string_of(path), ttl_secs, entries: Vec::new() }
    }

    /// The cache at `path` from what its file turned out to hold, plus an
    /// optional warning: a corrupt or unreadable cache is not fatal, it is
    /// simply rebuilt from scratch.
    pub fn load(path: &str, ttl_secs: u64, contents: CacheContents) -> (r: (PublicationCache, Option<
        String,
    >))
        ensures
            r.0.ttl() == ttl_secs,
            r.0.location() == path@,
            match contents {
                CacheContents::Entries(v) => r.0.view_map() == entry_map(v@) && r.1 is None,
                CacheContents::Missing => r.0.view_map() == Map::<Seq<char>, CacheEntry>::empty()
                    && r.1 is None,
                CacheContents::Corrupt(e) => r.0.view_map() == Map::<Seq<char>, CacheEntry>::empty()
                    && (r.1 matches Some(w) && w@ == "ignoring corrupt cache "@ + path@ + ": "@ + e@),
                CacheContents::Unreadable(e) => r.0.view_map() == Map::<
                    Seq<char>,
                    CacheEntry,
                >::empty() && (r.1 matches Some(w) && w@ == "cannot read cache "@ + path@ + ": "@
                    + e@),
            },
    {
        match contents {
            CacheContents::Entries(v) => (
                PublicationCache { path: string_of(path), ttl_secs, entries: v },
                None,
            ),
            CacheContents::Missing => (PublicationCache::new(path, ttl_secs), None),
            CacheContents::Corrupt(e) => {
                let mut w = string_of("ignoring corrupt cache ");
                push_str(&mut w, path);
                push_str(&mut w, ": ");
                push_str(&mut w, e.as_str());
                (PublicationCache::new(path, ttl_secs), Some(w))
            },
            CacheContents::Unreadable(e) => {
                let mut w = string_of("cannot read cache ");
                push_str(&mut w, path);
                push_str(&mut w, ": ");
                push_str(&mut w, e.as_str());
                (PublicationCache::new(path, ttl_secs), Some(w))
            },
        }
    }

    /// The file this cache is stored in.
    pub fn path(&self) -> (r: &str)
        ensures
            r@ == self.location(),
    {
        self.path.as_str()
    }

    /// The entries to persist; their map is the cache's content.
    pub fn entries(&self) -> (r: &Vec<(String, CacheEntry)>)
        ensures
            entry_map(r@) == self.view_map(),
    {
        &self.entries
    }

    /// Cache identity of one lookup. AUR results depend on the resolution
    /// mode (git history and/or LastModified heuristic give different answers
    /// for the same name@version), so the mode tag is part of the key and no
    /// mode can shadow another's entries.
    pub fn key(source: PackageSource, name: &str, version: &str, aur_mode: &str) -> (r: String)
        ensures
            r@ == key_spec(source, name@, version@, aur_mode@),
    {
        let mut s = match source {
            PackageSource::Repo => string_of("repo:"),
            PackageSource::Aur => {
                let mut t = string_of("aur");
                push_str(&mut t, aur_mode);
                push_str(&mut t, ":");
                t
            },
        };
        push_str(&mut s, name);
        push_str(&mut s, "@");
        push_str(&mut s, version);
        s
    }

    /// The position of the last entry stored under `key`.
    fn position(&self, key: &str) -> (r: Option<usize>)
        ensures
            match r {
                Some(i) => i < self.entries@.len() && self.entries@[i as int].0@ == key@ && forall|
                    j: int,
                | i < j < self.entries@.len() ==> (#[trigger] self.entries@[j]).0@ != key@,
                None => forall|j: int|
                    0 <= j < self.entries@.len() ==> (#[trigger] self.entries@[j]).0@ != key@,
            },
    {
        let k = chars_of(key);
        let mut i = self.entries.len();
        while i > 0
            invariant
                i <= self.entries@.len(),
                k@ == key@,
                forall|j: int| i <= j < self.entries@.len() ==> (#[trigger] self.entries@[j]).0@ != key@,
            decreases i,
        {
            let candidate = chars_of(self.entries[i - 1].0.as_str());
            if chars_eq(&candidate, &k) {
                return Some(i - 1);
            }
            i = i - 1;
        }
        None
    }

    /// Look up a cached publication. Positive entries never expire; negative
    /// ones expire after the configured TTL.
    pub fn get(&self, key: &str, now: i64) -> (r: Option<Publication>)
        ensures
            r == lookup(self.view_map(), key@, now, self.ttl()),
    {
        let found = self.position(key);
        proof {
            lemma_entry_map_last(self.entries@, key@, found);
        }
        let i = match found {
            Some(i) => i,
            None => {
                return None;
            },
        };
        let entry = self.entries[i].1;
        match entry.published_at {
            Some(ts) => Some(Publication::known(ts, entry.basis)),
            None => {
                let age: i64 = match now.checked_sub(entry.fetched_at) {
                    Some(d) => d,
                    None => if entry.fetched_at < 0 {
                        i64::MAX
                    } else {
                        i64::MIN
                    },
                };
                if age >= 0 && (age as u64) < self.ttl_secs {
                    Some(Publication::unknown())
                } else {
                    None
                }
            },
        }
    }

    /// Record `publication` under `key`, fetched at `now`.
    pub fn insert(&mut self, key: String, publication: &Publication, now: i64)
        ensures
            final(self).view_map() == old(self).view_map().insert(
                key@,
                CacheEntry {
                    published_at: publication.published_at,
                    basis: publication.basis,
                    fetched_at: now,
                },
            ),
            final(self).ttl() == old(self).ttl(),
            final(self).location() == old(self).location(),
    {
        let entry = CacheEntry {
            published_at: publication.published_at,
            basis: publication.basis,
            fetched_at: now,
        };
        let ghost before = self.entries@;
        let ghost k = key@;
        match self.position(key.as_str()) {
            Some(i) => {
                let item = (key, entry);
                proof {
                    lemma_update_last(before, i as int, item);
                }
                self.entries.set(i, item);
                assert(self.entries@ == before.update(i as int, item));
            },
            None => {
                let item = (key, entry);
                self.entries.push(item);
                assert(self.entries@.drop_last() == before);
                assert(entry_map(self.entries@) == entry_map(before).insert(k, entry));
            },
        }
    }
}

/// The map holds `key` exactly when some entry has it, with the last such
/// entry's value.
proof fn lemma_entry_map_last(v: Seq<(String, CacheEntry)>, key: Seq<char>, found: Option<usize>)
    requires
        match found {
            Some(i) => i < v.len() && v[i as int].0@ == key && forall|j: int|
                i < j < v.len() ==> (#[trigger] v[j]).0@ != key,
            None => forall|j: int| 0 <= j < v.len() ==> (#[trigger] v[j]).0@ != key,
        },
    ensures
        match found {
            Some(i) => entry_map(v).contains_key(key) && entry_map(v)[key] == v[i as int].1,
            None => !entry_map(v).contains_key(key),
        },
    decreases v.len(),
{
    if v.len() > 0 {
        let p = v.drop_last();
        match found {
            Some(i) => {
                if i as int == v.len() - 1 {
                } else {
                    assert forall|j: int| i < j < p.len() implies (#[trigger] p[j]).0@ != key by {
                        assert(p[j] == v[j]);
                    }
                    assert(p[i as int] == v[i as int]);
                    lemma_entry_map_last(p, key, found);
                }
            },
            None => {
                assert forall|j: int| 0 <= j < p.len() implies (#[trigger] p[j]).0@ != key by {
                    assert(p[j] == v[j]);
                }
                lemma_entry_map_last(p, key, None);
            },
        }
    }
}

/// A negative result is served from the cache exactly while it is younger
/// than the TTL; a positive result is served at any time.
pub proof fn lemma_insert_then_get(
    m: Map<Seq<char>, CacheEntry>,
    key: Seq<char>,
    publication: Publication,
    fetched: i64,
    now: i64,
    ttl_secs: u64,
)
    ensures
        lookup(
            m.insert(
                key,
                CacheEntry {
                    published_at: publication.published_at,
                    basis: publication.basis,
                    fetched_at: fetched,
                },
            ),
            key,
            now,
            ttl_secs,
        ) == match publication.published_at {
            Some(ts) => Some(Publication { published_at: Some(ts), basis: publication.basis }),
            None => if 0 <= saturating_diff(now, fetched) < ttl_secs {
                Some(Publication::unknown_spec())
            } else {
                None
            },
        },
{
}

/// Inserting under one key leaves every other key's lookup unchanged.
pub proof fn lemma_insert_keeps_other_keys(
    m: Map<Seq<char>, CacheEntry>,
    key: Seq<char>,
    entry: CacheEntry,
    other: Seq<char>,
    now: i64,
    ttl_secs: u64,
)
    requires
        other != key,
    ensures
        lookup(m.insert(key, entry), other, now, ttl_secs) == lookup(m, other, now, ttl_secs),
{
}

/// Different AUR resolution modes never share a cache key, so no mode can
/// shadow another's entries.
pub proof fn lemma_aur_modes_have_distinct_keys(
    name: Seq<char>,
    version: Seq<char>,
    mode_a: Seq<char>,
    mode_b: Seq<char>,
)
    requires
        mode_a != mode_b,
    ensures
        key_spec(PackageSource::Aur, name, version, mode_a) != key_spec(
            PackageSource::Aur,
            name,
            version,
            mode_b,
        ),
{
    let tail = ":"@ + name + "@"@ + version;
    let ka = "aur"@ + mode_a + tail;
    let kb = "aur"@ + mode_b + tail;
    assert(key_spec(PackageSource::Aur, name, version, mode_a) =~= ka);
    assert(key_spec(PackageSource::Aur, name, version, mode_b) =~= kb);
    reveal_strlit("aur");
    if ka == kb {
        assert(("aur"@ + mode_a).len() == ("aur"@ + mode_b).len());
        assert(("aur"@ + mode_a) =~= ka.take(("aur"@ + mode_a).len() as int));
        assert(("aur"@ + mode_b) =~= kb.take(("aur"@ + mode_b).len() as int));
        assert(mode_a =~= ("aur"@ + mode_a).skip(3));
        assert(mode_b =~= ("aur"@ + mode_b).skip(3));
    }
}

/// Repository keys do not depend on the AUR resolution mode.
pub proof fn lemma_repo_key_ignores_mode(
    name: Seq<char>,
    version: Seq<char>,
    mode_a: Seq<char>,
    mode_b: Seq<char>,
)
    ensures
        key_spec(PackageSource::Repo, name, version, mode_a) == key_spec(
            PackageSource::Repo,
            name,
            version,
            mode_b,
        ),
{
}

} // verus!
