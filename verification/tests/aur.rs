use pactience::error::Error;
use pactience::http::FetchOutcome;
use pactience::model::{PackageSource, PublicationBasis, UpgradeCandidate};
use pactience::publication::aur::{
    find_info, info_request, info_url, infos_from_response, rpc_body, AurInfo, AurPublicationSource, RpcResponse,
    RpcResult,
};
use pactience::publication::PublicationSource;

fn candidate(name: &str, version: &str) -> UpgradeCandidate {
    UpgradeCandidate {
        name: name.to_string(),
        installed_version: "1.0-1".to_string(),
        candidate_version: version.to_string(),
        source: PackageSource::Aur,
    }
}

fn infos() -> Vec<AurInfo> {
    vec![AurInfo {
        name: "paru-bin".to_string(),
        version: "2.0.4-1".to_string(),
        last_modified: Some(1711559040),
        depends: vec![],
    }]
}

#[test]
fn unknown_by_default() {
    let map = infos();
    let source = AurPublicationSource {
        infos: &map,
        heuristic: false,
    };
    let p = source
        .publication(&candidate("paru-bin", "2.0.4-1"))
        .unwrap();
    assert_eq!(p.published_at, None);
    assert_eq!(p.basis, PublicationBasis::Unknown);
}

#[test]
fn heuristic_uses_last_modified_when_versions_match() {
    let map = infos();
    let source = AurPublicationSource {
        infos: &map,
        heuristic: true,
    };
    let p = source
        .publication(&candidate("paru-bin", "2.0.4-1"))
        .unwrap();
    assert_eq!(p.published_at, Some(1711559040));
    assert_eq!(p.basis, PublicationBasis::AurLastModified);
}

#[test]
fn heuristic_rejects_stale_last_modified() {
    let map = infos();
    let source = AurPublicationSource {
        infos: &map,
        heuristic: true,
    };
    // RPC version has moved on from our candidate.
    let p = source
        .publication(&candidate("paru-bin", "2.0.3-1"))
        .unwrap();
    assert_eq!(p.published_at, None);
}

#[test]
fn multiinfo_results_become_infos() {
    let resp = RpcResponse {
        kind: "multiinfo".to_string(),
        error: None,
        results: vec![RpcResult {
            name: "paru-bin".to_string(),
            version: "2.0.4-1".to_string(),
            last_modified: Some(1711559040),
            depends: Some(vec!["git".to_string(), "pacman>=6.0".to_string(), ">=1".to_string()]),
        }],
    };
    let infos = infos_from_response(resp).unwrap();
    let info = find_info(&infos, "paru-bin").unwrap();
    assert_eq!(info.version, "2.0.4-1");
    assert_eq!(info.last_modified, Some(1711559040));
    assert_eq!(info.depends.len(), 2);
    assert_eq!(info.depends[1].name, "pacman");
    assert!(find_info(&infos, "other").is_none());
}

#[test]
fn error_reply_reports_its_error() {
    let resp = RpcResponse {
        kind: "error".to_string(),
        error: Some("Too many arguments".to_string()),
        results: vec![],
    };
    assert_eq!(infos_from_response(resp).unwrap_err(), "Too many arguments");
    let resp = RpcResponse {
        kind: "error".to_string(),
        error: None,
        results: vec![],
    };
    assert_eq!(infos_from_response(resp).unwrap_err(), "unspecified AUR error");
}

#[test]
fn info_url_lists_every_name() {
    let names = vec!["a".to_string(), "b".to_string()];
    assert_eq!(
        info_url("https://aur.test", &names),
        "https://aur.test/rpc/v5/info?arg[]=a&arg[]=b"
    );
}

#[test]
fn missing_rpc_endpoint_is_an_http_error() {
    assert_eq!(rpc_body(FetchOutcome::Body("{}".to_string()), "u").unwrap(), "{}");
    assert_eq!(
        rpc_body(FetchOutcome::NotFound, "u").unwrap_err(),
        Error::Http {
            url: "u".to_string(),
            message: "AUR RPC endpoint not found".to_string()
        }
    );
}

#[test]
fn parses_multiinfo_response() {
    // The multi-info reply, as the JSON decoder hands it over.
    let resp = RpcResponse {
        kind: "multiinfo".to_string(),
        error: None,
        results: vec![RpcResult {
            name: "paru-bin".to_string(),
            version: "2.0.4-1".to_string(),
            last_modified: Some(1711559040),
            depends: Some(vec!["git".to_string(), "pacman>=6.0".to_string()]),
        }],
    };
    let infos = infos_from_response(resp).unwrap();
    let info = find_info(&infos, "paru-bin").unwrap();
    assert_eq!(info.version, "2.0.4-1");
    assert_eq!(info.last_modified, Some(1711559040));
    assert_eq!(info.depends.len(), 2);
    assert_eq!(info.depends[1].name, "pacman");
}

#[test]
fn error_response_is_an_error() {
    let resp = RpcResponse {
        kind: "error".to_string(),
        error: Some("Too many arguments".to_string()),
        results: vec![],
    };
    assert!(infos_from_response(resp).is_err());
}

#[test]
fn no_names_means_no_request() {
    assert_eq!(info_request("https://aur.test", &[]), None);
    assert_eq!(
        info_request("https://aur.test", &["a".to_string()]),
        Some("https://aur.test/rpc/v5/info?arg[]=a".to_string())
    );
}
