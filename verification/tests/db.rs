use std::io::Write;

use flate2::write::GzEncoder;
use flate2::Compression;
use pactience::db::{parse_desc, DepOp, DepSpec, LocalDb, InstalledPackage, Provide, SyncDb, RepoPackageMeta};
use pactience::load::{decompress, packages_from_members, sync_db_packages, Member};

#[test]
fn parses_depspec_without_constraint() {
    let dep = DepSpec::parse("glibc").unwrap();
    assert_eq!(dep.name, "glibc");
    assert_eq!(dep.constraint, None);
    assert!(dep.satisfied_by("2.39-1"));
}

#[test]
fn parses_versioned_depspecs() {
    let dep = DepSpec::parse("foo>=1.2-3").unwrap();
    assert_eq!(dep.name, "foo");
    assert_eq!(dep.constraint, Some((DepOp::Ge, "1.2-3".to_string())));
    assert!(dep.satisfied_by("1.2-3"));
    assert!(dep.satisfied_by("1.3-1"));
    assert!(!dep.satisfied_by("1.1-9"));

    let dep = DepSpec::parse("bar=2.0-1").unwrap();
    assert!(dep.satisfied_by("2.0-1"));
    assert!(!dep.satisfied_by("2.0-2"));

    let dep = DepSpec::parse("baz<2.0").unwrap();
    assert!(dep.satisfied_by("1.9-1"));
    assert!(!dep.satisfied_by("2.0-1"));
}

#[test]
fn depspec_strips_descriptions() {
    let dep = DepSpec::parse("foo>=1.0: needed for bar").unwrap();
    assert_eq!(dep.name, "foo");
    assert_eq!(dep.constraint, Some((DepOp::Ge, "1.0".to_string())));
}

#[test]
fn rejects_garbage_depspecs() {
    assert!(DepSpec::parse("").is_none());
    assert!(DepSpec::parse("  ").is_none());
    assert!(DepSpec::parse(">=1.0").is_none());
    assert!(DepSpec::parse("foo>=").is_none());
}

#[test]
fn parses_provides() {
    assert_eq!(
        Provide::parse("sh").unwrap(),
        Provide {
            name: "sh".into(),
            version: None
        }
    );
    assert_eq!(
        Provide::parse("libfoo.so=1.0-64").unwrap(),
        Provide {
            name: "libfoo.so".into(),
            version: Some("1.0-64".into())
        }
    );
}

#[test]
fn parses_desc_content() {
    let content = "%NAME%\nfoo\n\n%VERSION%\n1.2-3\n\n%BUILDDATE%\n1712345678\n\n%DEPENDS%\nglibc\nbar>=1.0: why not\n\n%PROVIDES%\nsh\nlibfoo=1.2\n\n";
    let pkg = parse_desc(content);
    assert_eq!(pkg.name, "foo");
    assert_eq!(pkg.version, "1.2-3");
    assert_eq!(pkg.build_date, Some(1712345678));
    assert_eq!(pkg.depends.len(), 2);
    assert_eq!(pkg.depends[1].name, "bar");
    assert_eq!(pkg.provides.len(), 2);
    assert_eq!(pkg.provides[1].version, Some("1.2".to_string()));
}

#[test]
fn desc_with_bad_builddate_yields_none() {
    let pkg = parse_desc("%NAME%\nfoo\n\n%VERSION%\n1-1\n\n%BUILDDATE%\nsoon\n");
    assert_eq!(pkg.build_date, None);
}

#[test]
fn decompresses_gzip() {
    let mut enc = GzEncoder::new(Vec::new(), Compression::fast());
    enc.write_all(b"hello tar").unwrap();
    let compressed = enc.finish().unwrap();
    assert_eq!(decompress(&compressed).unwrap(), b"hello tar");
}

#[test]
fn decompresses_zstd_and_passes_plain_bytes_through() {
    let compressed = zstd::stream::encode_all(&b"hello zstd"[..], 0).unwrap();
    assert_eq!(decompress(&compressed).unwrap(), b"hello zstd");
    assert_eq!(decompress(b"plain tar").unwrap(), b"plain tar");
    // A gzip header over garbage is an error, not a panic.
    assert!(decompress(&[0x1f, 0x8b, 0, 1, 2]).is_err());
}

#[test]
fn sync_db_members_keep_only_named_desc_records() {
    let members = vec![
        Member {
            file_name: Some("desc".to_string()),
            content: Some("%NAME%\nfoo\n\n%VERSION%\n1.2-3\n\n%BUILDDATE%\n1712345678\n\n".to_string()),
        },
        Member {
            file_name: Some("files".to_string()),
            content: Some("%NAME%\nbar\n\n%VERSION%\n1-1\n".to_string()),
        },
        Member {
            file_name: Some("desc".to_string()),
            content: Some("%NAME%\nnoversion\n".to_string()),
        },
        Member {
            file_name: Some("desc".to_string()),
            content: None,
        },
    ];
    let pkgs = packages_from_members(&members);
    assert_eq!(pkgs.len(), 1);
    assert_eq!(pkgs[0].name, "foo");
    let db = SyncDb::load(vec![pkgs]);
    let pkg = db.get("foo").unwrap();
    assert_eq!(pkg.version, "1.2-3");
    assert_eq!(pkg.build_date, Some(1712345678));
}

#[test]
fn later_sync_db_wins() {
    let a = RepoPackageMeta {
        name: "foo".to_string(),
        version: "1-1".to_string(),
        ..Default::default()
    };
    let b = RepoPackageMeta {
        name: "foo".to_string(),
        version: "2-1".to_string(),
        ..Default::default()
    };
    let db = SyncDb::load(vec![vec![a], vec![b]]);
    assert_eq!(db.get("foo").unwrap().version, "2-1");
    assert_eq!(db.len(), 2);
}

#[test]
fn local_db_loads_records_and_provides() {
    let descs = vec![
        "%NAME%\nbash\n\n%VERSION%\n5.2-1\n\n%PROVIDES%\nsh\n".to_string(),
        "%NAME%\n\n".to_string(),
        "%NAME%\nglibc\n\n%VERSION%\n2.39-1\n".to_string(),
    ];
    let db = LocalDb::load(&descs);
    assert_eq!(db.version_of("bash"), Some("5.2-1"));
    assert_eq!(db.version_of("glibc"), Some("2.39-1"));
    assert_eq!(db.providers_of("sh"), vec!["bash".to_string()]);
    assert_eq!(db.provided_version("bash", "sh"), Some(None));
    assert_eq!(db.installed_count(), 2);
}

#[test]
fn local_db_insert_replaces_and_indexes_provides() {
    let mut db = LocalDb::default();
    db.insert(
        "bash".to_string(),
        InstalledPackage {
            version: "5.1-1".to_string(),
            provides: vec![],
        },
    );
    db.insert(
        "bash".to_string(),
        InstalledPackage {
            version: "5.2-1".to_string(),
            provides: vec![Provide {
                name: "sh".to_string(),
                version: Some("1.0".to_string()),
            }],
        },
    );
    assert_eq!(db.version_of("bash"), Some("5.2-1"));
    assert_eq!(db.provided_version("bash", "sh"), Some(Some("1.0")));
    assert_eq!(db.version_of("zsh"), None);
    assert_eq!(db.installed_count(), 1);
}

#[test]
fn depspec_keeps_an_epoch() {
    let dep = DepSpec::parse("foo>=1:2.0-1").unwrap();
    assert_eq!(dep.name, "foo");
    assert_eq!(dep.constraint, Some((DepOp::Ge, "1:2.0-1".to_string())));
    let dep = DepSpec::parse("foo=1:2.0-1: with a description").unwrap();
    assert_eq!(dep.constraint, Some((DepOp::Eq, "1:2.0-1".to_string())));
    let p = Provide::parse("libfoo=2:1.0").unwrap();
    assert_eq!(p.version, Some("2:1.0".to_string()));
}

#[test]
fn reinstalling_updates_the_providers() {
    let provides = |caps: &[&str]| -> Vec<Provide> {
        caps.iter().map(|c| Provide { name: c.to_string(), version: None }).collect()
    };
    let mut db = LocalDb::default();
    db.insert("a".to_string(), InstalledPackage { version: "1-1".to_string(), provides: provides(&["c", "c"]) });
    db.insert("b".to_string(), InstalledPackage { version: "1-1".to_string(), provides: provides(&["c"]) });
    assert_eq!(db.providers_of("c"), vec!["a".to_string(), "b".to_string()]);
    db.insert("a".to_string(), InstalledPackage { version: "2-1".to_string(), provides: vec![] });
    assert_eq!(db.providers_of("c"), vec!["b".to_string()]);
    assert_eq!(db.version_of("a"), Some("2-1"));
}

fn tar_with_desc(desc: &str) -> Vec<u8> {
    let mut builder = tar::Builder::new(Vec::new());
    let mut header = tar::Header::new_gnu();
    header.set_size(desc.len() as u64);
    header.set_mode(0o644);
    header.set_cksum();
    builder.append_data(&mut header, "foo-1.2-3/desc", desc.as_bytes()).unwrap();
    builder.into_inner().unwrap()
}

#[test]
fn loads_plain_tar_sync_db() {
    let tar_bytes = tar_with_desc("%NAME%\nfoo\n\n%VERSION%\n1.2-3\n\n%BUILDDATE%\n1712345678\n\n");
    let db = SyncDb::load(vec![sync_db_packages(&tar_bytes).unwrap()]);
    let pkg = db.get("foo").unwrap();
    assert_eq!(pkg.version, "1.2-3");
    assert_eq!(pkg.build_date, Some(1712345678));
}

#[test]
fn loads_gzipped_tar_sync_db() {
    let tar_bytes = tar_with_desc("%NAME%\nbar\n\n%VERSION%\n2-1\n\n");
    let mut enc = GzEncoder::new(Vec::new(), Compression::fast());
    enc.write_all(&tar_bytes).unwrap();
    let gz = enc.finish().unwrap();
    let pkgs = sync_db_packages(&gz).unwrap();
    assert_eq!(pkgs.len(), 1);
    assert_eq!(pkgs[0].name, "bar");
    assert!(sync_db_packages(&[0x1f, 0x8b, 0, 1, 2]).is_err());
}
