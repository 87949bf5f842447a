use std::collections::HashMap;

use pactience::date::epoch_from_date_time;
use pactience::error::Result;
use pactience::http::{FetchOutcome, HttpClient};
use pactience::model::{PackageSource, PublicationBasis, UpgradeCandidate};
use pactience::publication::archive::{parse_package_index, publication_from_page, ArchivePublicationSource};
use pactience::publication::PublicationSource;

const INDEX: &str = r#"<!DOCTYPE html>
<html><head><title>Index of /packages/l/linux/</title></head>
<body><h1>Index of /packages/l/linux/</h1>
<pre><a href="../">../</a>
<a href="linux-6.8.1.arch1-1-x86_64.pkg.tar.zst">linux-6.8.1.arch1-1-x86_64.pkg.tar.zst</a>  2024-03-16 21:05  130M
<a href="linux-6.8.1.arch1-1-x86_64.pkg.tar.zst.sig">linux-6.8.1.arch1-1-x86_64.pkg.tar.zst.sig</a>  2024-03-16 21:05  143
<a href="linux-6.8.2.arch1-1-x86_64.pkg.tar.zst">linux-6.8.2.arch1-1-x86_64.pkg.tar.zst</a>  2024-03-27 15:44  131M
<a href="linux-6.8.2.arch1-1-x86_64.pkg.tar.zst.sig">linux-6.8.2.arch1-1-x86_64.pkg.tar.zst.sig</a>  2024-03-27 15:44  143
<a href="linux-6.8.2.arch1-2-x86_64.pkg.tar.zst">linux-6.8.2.arch1-2-x86_64.pkg.tar.zst</a>  2024-03-29 09:12  131M
</pre></body></html>"#;

#[test]
fn finds_exact_version_timestamp() {
    let ts = parse_package_index(INDEX, "linux", "6.8.2.arch1-1", "x86_64");
    assert_eq!(ts, Some(epoch_from_date_time(2024, 3, 27, 15, 44)));
}

#[test]
fn missing_version_is_none() {
    assert_eq!(
        parse_package_index(INDEX, "linux", "6.9.0-1", "x86_64"),
        None
    );
}

#[test]
fn epoch_is_stripped_for_filename_matching() {
    let index = r#"<a href="foo-2.0-1-x86_64.pkg.tar.zst">x</a>  2024-01-05 10:30  1M"#;
    let ts = parse_package_index(index, "foo", "1:2.0-1", "x86_64");
    assert_eq!(ts, Some(epoch_from_date_time(2024, 1, 5, 10, 30)));
}

#[test]
fn parses_nginx_autoindex_timestamps() {
    // The real archive.archlinux.org index format.
    let index = r#"<a href="linux-6.15.2.arch1-1-x86_64.pkg.tar.zst">linux-6.15.2.arch1-1-x86_64.pkg.tar.zst</a>            11-Jun-2025 07:31   141M"#;
    let ts = parse_package_index(index, "linux", "6.15.2.arch1-1", "x86_64");
    assert_eq!(ts, Some(epoch_from_date_time(2025, 6, 11, 7, 31)));
}

#[test]
fn percent_encoded_hrefs_are_decoded() {
    // '+' in versions is served as %2B in hrefs by the archive.
    let index = r#"<a href="glibc-2.43%2Br37%2Bgfdf10644d6ee-1-x86_64.pkg.tar.zst">glibc-2.43+r37+gfdf10644d6ee-1-x86_64.pkg.tar.zst</a>  25-Jun-2026 16:04   10M"#;
    let ts = parse_package_index(index, "glibc", "2.43+r37+gfdf10644d6ee-1", "x86_64");
    assert_eq!(ts, Some(epoch_from_date_time(2026, 6, 25, 16, 4)));
}

#[test]
fn prefix_collision_does_not_match_other_versions() {
    // "1.2-3" must not match "1.2-30".
    let index = r#"<a href="foo-1.2-30-x86_64.pkg.tar.zst">x</a>  2024-01-05 10:30  1M"#;
    assert_eq!(parse_package_index(index, "foo", "1.2-3", "x86_64"), None);
}

#[test]
fn earliest_of_several_matching_files_wins() {
    let index = "<a href=\"foo-1-1-x86_64.pkg.tar.zst\">a</a>  2024-02-01 00:00\n<a href=\"foo-1-1-x86_64.pkg.tar.xz\">b</a>  2024-01-01 00:00\n";
    assert_eq!(
        parse_package_index(index, "foo", "1-1", "x86_64"),
        Some(epoch_from_date_time(2024, 1, 1, 0, 0))
    );
}

#[test]
fn invalid_dates_are_not_timestamps() {
    let index = "<a href=\"foo-1-1-x86_64.pkg.tar.zst\">a</a>  2024-13-01 00:00  32-Jan-2024 10:00\n";
    assert_eq!(parse_package_index(index, "foo", "1-1", "x86_64"), None);
}

#[test]
fn non_ascii_rows_keep_their_timestamp() {
    // A multi-byte anchor text before the timestamp is passed over.
    let index = "<a href=\"foo-1-1-x86_64.pkg.tar.zst\">é</a>  2024-01-05 10:30  1M\n";
    assert_eq!(
        parse_package_index(index, "foo", "1-1", "x86_64"),
        Some(epoch_from_date_time(2024, 1, 5, 10, 30))
    );
    let page = FetchOutcome::Body(index.to_string());
    let p = publication_from_page(&page, "foo", "1-1", "x86_64");
    assert_eq!(p.published_at, Some(epoch_from_date_time(2024, 1, 5, 10, 30)));
    assert_eq!(p.basis, PublicationBasis::Archive);
    let p = publication_from_page(&FetchOutcome::NotFound, "foo", "1-1", "x86_64");
    assert_eq!(p.published_at, None);
}

struct MockHttp {
    pages: HashMap<String, FetchOutcome>,
}

impl HttpClient for MockHttp {
    fn get(&self, url: &str) -> Result<FetchOutcome> {
        Ok(self
            .pages
            .get(url)
            .cloned()
            .unwrap_or(FetchOutcome::NotFound))
    }
}

fn candidate(name: &str, version: &str) -> UpgradeCandidate {
    UpgradeCandidate {
        name: name.to_string(),
        installed_version: "0-1".to_string(),
        candidate_version: version.to_string(),
        source: PackageSource::Repo,
    }
}

#[test]
fn source_resolves_via_index() {
    let mut pages = HashMap::new();
    pages.insert(
        "https://example.test/packages/l/linux/".to_string(),
        FetchOutcome::Body(INDEX.to_string()),
    );
    let http = MockHttp { pages };
    let source = ArchivePublicationSource::with_base_url(&http, "https://example.test");
    let p = source
        .publication(&candidate("linux", "6.8.2.arch1-2"))
        .unwrap();
    assert_eq!(
        p.published_at,
        Some(epoch_from_date_time(2024, 3, 29, 9, 12))
    );
    assert_eq!(p.basis, PublicationBasis::Archive);
}

#[test]
fn unknown_package_is_unknown_not_error() {
    let http = MockHttp {
        pages: HashMap::new(),
    };
    let source = ArchivePublicationSource::with_base_url(&http, "https://example.test");
    let p = source
        .publication(&candidate("nosuchpkg", "1.0-1"))
        .unwrap();
    assert_eq!(p.published_at, None);
    assert_eq!(p.basis, PublicationBasis::Unknown);
}

#[test]
fn index_url_uses_the_first_character() {
    let http = MockHttp {
        pages: HashMap::new(),
    };
    let source = ArchivePublicationSource::new(&http, "aarch64");
    assert_eq!(source.url_for("linux"), "https://archive.archlinux.org/packages/l/linux/");
    assert_eq!(source.arch, "aarch64");
}
