//! The pacman databases from their files: sync databases are tar archives
//! (gzip- or zstd-compressed) holding one `desc` record per package; the
//! local database holds one uncompressed `desc` record per installed
//! package.

use std::io::Read;
use vstd::prelude::*;

use crate::db::{
    parse_desc, parse_desc_spec, provide_views, InstalledPackage, InstalledView, LocalDb, MetaView,
    ProvideView, RepoPackageMeta, SyncDb,
};
use crate::text::str_eq;

verus! {

/// What reading a gzip stream from `raw` to its end gives (flate2's
/// `GzDecoder`): the decoded bytes, or the text of the error.
pub uninterp spec fn gunzip(raw: Seq<u8>) -> core::result::Result<Seq<u8>, Seq<char>>;

/// What reading a zstd stream from `raw` to its end gives (zstd's stream
/// `Decoder`): the decoded bytes, or the text of the error.
pub uninterp spec fn unzstd(raw: Seq<u8>) -> core::result::Result<Seq<u8>, Seq<char>>;

/// flate2's `read::GzDecoder` over `raw`, read to the end. The contract
/// names the outcome; which bytes a gzip stream decodes to is not stated.
#[verifier::external_body]
fn gunzip_bytes(raw: &[u8]) -> (r: core::result::Result<Vec<u8>, String>)
    ensures
        match r {
            Ok(v) => gunzip(raw@) == Ok::<Seq<u8>, Seq<char>>(v@),
            Err(e) => gunzip(raw@) == Err::<Seq<u8>, Seq<char>>(e@),
        },
{
    let mut out = Vec::new();
    match flate2::read::GzDecoder::new(raw).read_to_end(&mut out) {
        Ok(_) => Ok(out),
        Err(e) => Err(e.to_string()),
    }
}

/// zstd's `stream::Decoder` over `raw`, read to the end. The contract
/// names the outcome; which bytes a zstd frame decodes to is not stated.
#[verifier::external_body]
fn unzstd_bytes(raw: &[u8]) -> (r: core::result::Result<Vec<u8>, String>)
    ensures
        match r {
            Ok(v) => unzstd(raw@) == Ok::<Seq<u8>, Seq<char>>(v@),
            Err(e) => unzstd(raw@) == Err::<Seq<u8>, Seq<char>>(e@),
        },
{
    let mut out = Vec::new();
    match zstd::stream::Decoder::new(raw) {
        Ok(mut d) => match d.read_to_end(&mut out) {
            Ok(_) => Ok(out),
            Err(e) => Err(e.to_string()),
        },
        Err(e) => Err(e.to_string()),
    }
}

/// Whether `raw` begins with the gzip magic bytes.
pub open spec fn is_gzip(raw: Seq<u8>) -> bool {
    raw.len() >= 2 && raw[0] == 0x1f && raw[1] == 0x8b
}

/// Whether `raw` begins with the zstd magic bytes.
pub open spec fn is_zstd(raw: Seq<u8>) -> bool {
    raw.len() >= 4 && raw[0] == 0x28 && raw[1] == 0xb5 && raw[2] == 0x2f && raw[3] == 0xfd
}

/// A database file's tar payload: gzip and zstd streams are decoded (by
/// their magic bytes), anything else passes through as plain tar.
pub open spec fn decompressed(raw: Seq<u8>) -> core::result::Result<Seq<u8>, Seq<char>> {
    if is_gzip(raw) {
        gunzip(raw)
    } else if is_zstd(raw) {
        unzstd(raw)
    } else {
        Ok(raw)
    }
}

/// Decompress gzip/zstd payloads, or pass plain tar through. Detection is by
/// magic bytes.
pub fn decompress(raw: &[u8]) -> (r: core::result::Result<Vec<u8>, String>)
    ensures
        match r {
            Ok(v) => decompressed(raw@) == Ok::<Seq<u8>, Seq<char>>(v@),
            Err(e) => decompressed(raw@) == Err::<Seq<u8>, Seq<char>>(e@),
        },
{
    let n = raw.len();
    if n >= 2 && raw[0] == 0x1f && raw[1] == 0x8b {
        gunzip_bytes(raw)
    } else if n >= 4 && raw[0] == 0x28 && raw[1] == 0xb5 && raw[2] == 0x2f && raw[3] == 0xfd {
        unzstd_bytes(raw)
    } else {
        let mut out: Vec<u8> = Vec::new();
        for i in 0..n
            invariant
                n == raw@.len(),
                out@ == raw@.take(i as int),
        {
            out.push(raw[i]);
        }
        assert(raw@.take(n as int) == raw@);
        Ok(out)
    }
}

/// One archive member as read: its file name (the path's last component)
/// and its text, each `None` when it could not be read.
pub struct Member {
    pub file_name: Option<String>,
    pub content: Option<String>,
}

/// A member as plain values: its file name and its text.
pub open spec fn member_view(m: Member) -> (Option<Seq<char>>, Option<Seq<char>>) {
    (
        match m.file_name {
            Some(f) => Some(f@),
            None => None,
        },
        match m.content {
            Some(c) => Some(c@),
            None => None,
        },
    )
}

pub open spec fn member_views(ms: Seq<Member>) -> Seq<(Option<Seq<char>>, Option<Seq<char>>)> {
    ms.map_values(|m: Member| member_view(m))
}

/// The package a member records, when it is a readable `desc` record with
/// a name and a version.
pub open spec fn member_package(m: (Option<Seq<char>>, Option<Seq<char>>)) -> Option<MetaView> {
    match m {
        (Some(f), Some(c)) => if f == "desc"@ {
            let p = parse_desc_spec(c);
            if p.name.len() > 0 && p.version.len() > 0 {
                Some(p)
            } else {
                None
            }
        } else {
            None
        },
        _ => None,
    }
}

/// The packages the members record, in order.
pub open spec fn member_packages(ms: Seq<(Option<Seq<char>>, Option<Seq<char>>)>) -> Seq<MetaView>
    decreases ms.len(),
{
    if ms.len() == 0 {
        seq![]
    } else {
        match member_package(ms.last()) {
            Some(p) => member_packages(ms.drop_last()).push(p),
            None => member_packages(ms.drop_last()),
        }
    }
}

/// The members the tar crate reads from an archive `b` (an entry that fails
/// to read has neither name nor text), or the text of the error that stops
/// it.
pub uninterp spec fn untar(b: Seq<u8>) -> core::result::Result<
    Seq<(Option<Seq<char>>, Option<Seq<char>>)>,
    Seq<char>,
>;

/// tar's `Archive::entries` over `b`: for each entry, its path's last
/// component and its text (each `None` when it cannot be had, both when the
/// entry itself cannot be read). The
/// contract names the outcome; which members an archive holds is not stated.
#[verifier::external_body]
fn tar_members(b: &[u8]) -> (r: core::result::Result<Vec<Member>, String>)
    ensures
        match r {
            Ok(v) => untar(b@) == Ok::<Seq<(Option<Seq<char>>, Option<Seq<char>>)>, Seq<char>>(
                member_views(v@),
            ),
            Err(e) => untar(b@) == Err::<Seq<(Option<Seq<char>>, Option<Seq<char>>)>, Seq<char>>(
                e@,
            ),
        },
{
    let mut archive = tar::Archive::new(b);
    let entries = archive.entries().map_err(|e| e.to_string())?;
    Ok(entries.map(|entry| match entry {
        Ok(mut entry) => {
            let file_name = entry.path().ok().and_then(|p| p.file_name().and_then(|n| n.to_str()).map(String::from));
            let mut text = String::new();
            let content = entry.read_to_string(&mut text).ok().map(|_| text);
            Member { file_name, content }
        },
        Err(_) => Member { file_name: None, content: None },
    }).collect())
}

pub open spec fn meta_views(v: Seq<RepoPackageMeta>) -> Seq<MetaView> {
    v.map_values(|m: RepoPackageMeta| m@)
}

/// The packages of one sync database from its archive members: damaged
/// entries, other files and records without a name or version are skipped.
pub fn packages_from_members(members: &[Member]) -> (r: Vec<RepoPackageMeta>)
    ensures
        meta_views(r@) == member_packages(member_views(members@)),
{
    let mut packages: Vec<RepoPackageMeta> = Vec::new();
    let n = members.len();
    for i in 0..n
        invariant
            n == members@.len(),
            meta_views(packages@) == member_packages(member_views(members@.take(i as int))),
    {
        assert(member_views(members@.take(i + 1)).drop_last() =~= member_views(members@.take(i as int)));
        assert(member_views(members@.take(i + 1)).last() == member_view(members@[i as int]));
        let m = &members[i];
        if let (Some(f), Some(c)) = (&m.file_name, &m.content) {
            if str_eq(f.as_str(), "desc") {
                let pkg = parse_desc(c.as_str());
                if !pkg.name.as_str().is_empty() && !pkg.version.as_str().is_empty() {
                    let ghost before = packages@;
                    packages.push(pkg);
                    assert(meta_views(packages@) == meta_views(before).push(pkg@));
                }
            }
        }
    }
    assert(members@.take(n as int) == members@);
    packages
}

/// The packages of one sync database file: its payload decompressed, the
/// tar archive read, and the `desc` records parsed.
pub fn sync_db_packages(raw: &[u8]) -> (r: core::result::Result<Vec<RepoPackageMeta>, String>)
    ensures
        match decompressed(raw@) {
            Err(e) => r matches Err(x) && x@ == e,
            Ok(t) => match untar(t) {
                Err(e) => r matches Err(x) && x@ == e,
                Ok(ms) => r matches Ok(v) && meta_views(v@) == member_packages(ms),
            },
        },
{
    let tar = match decompress(raw) {
        Ok(t) => t,
        Err(e) => {
            return Err(e);
        },
    };
    let members = match tar_members(tar.as_slice()) {
        Ok(m) => m,
        Err(e) => {
            return Err(e);
        },
    };
    Ok(packages_from_members(&members))
}

/// The packages of the files, in order.
pub open spec fn all_packages(files: Seq<Vec<RepoPackageMeta>>) -> Seq<RepoPackageMeta>
    decreases files.len(),
{
    if files.len() == 0 {
        seq![]
    } else {
        files[0]@ + all_packages(files.drop_first())
    }
}

impl SyncDb {
    /// All packages of the given database files, in order; a later file's
    /// package replaces an earlier one of the same name.
    pub fn load(files: Vec<Vec<RepoPackageMeta>>) -> (r: SyncDb)
        ensures
            r.packages@ == all_packages(files@),
    {
        let mut db = SyncDb::default();
        let mut rest = files;
        let ghost all = rest@;
        while rest.len() > 0
            invariant
                db.packages@ + all_packages(rest@) == all_packages(all),
            decreases rest@.len(),
        {
            let ghost before = rest@;
            let mut f = rest.remove(0);
            assert(rest@ == before.drop_first());
            db.packages.append(&mut f);
            assert(db.packages@ + all_packages(rest@) == all_packages(all));
        }
        assert(db.packages@ + all_packages(rest@) == db.packages@);
        db
    }
}

/// The installed package recorded under `name` by the last record of that
/// name among `descs` (records without a name or version are skipped).
pub open spec fn desc_installed(descs: Seq<String>, name: Seq<char>) -> Option<InstalledView>
    decreases descs.len(),
{
    if descs.len() == 0 {
        None
    } else {
        let p = parse_desc_spec(descs.last()@);
        if p.name == name && p.name.len() > 0 && p.version.len() > 0 {
            Some(InstalledView { version: p.version, provides: p.provides })
        } else {
            desc_installed(descs.drop_last(), name)
        }
    }
}

impl LocalDb {
    /// The local database from the `desc` records of its package
    /// directories.
    pub fn load(descs: &[String]) -> (r: LocalDb)
        ensures
            r.wf(),
            forall|n: Seq<char>| #[trigger] r.installed_spec(n) == desc_installed(descs@, n),
    {
        let mut db = LocalDb::default();
        let n = descs.len();
        for i in 0..n
            invariant
                n == descs@.len(),
                db.wf(),
                forall|q: Seq<char>|
                    #[trigger] db.installed_spec(q) == desc_installed(descs@.take(i as int), q),
        {
            assert(descs@.take(i + 1).drop_last() == descs@.take(i as int));
            let pkg = parse_desc(descs[i].as_str());
            if !pkg.name.as_str().is_empty() && !pkg.version.as_str().is_empty() {
                let name = pkg.name;
                db.insert(name, InstalledPackage { version: pkg.version, provides: pkg.provides });
            }
        }
        assert(descs@.take(n as int) == descs@);
        db
    }
}

} // verus!
