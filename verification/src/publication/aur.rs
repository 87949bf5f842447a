//! AUR metadata via the RPC interface (v5).
//!
//! The AUR has **no per-version publication or build timestamp**. The only
//! time signal is the package base's `LastModified`, which changes on any
//! PKGBUILD edit and says nothing about when the current version appeared.
//! Age for AUR packages is therefore "unknown" by default; the
//! `aur_heuristic` config option opts into `LastModified` and every result
//! produced that way is labelled as a heuristic.

use vstd::prelude::*;

use crate::db::{dep_views, parse_dep_spec, DepSpec, DepSpecView};
use crate::error::{Error, Result};
use crate::http::FetchOutcome;
use crate::model::{Publication, PublicationBasis, UpgradeCandidate};
use crate::text::{chars_eq, chars_of, push_str, str_eq, string_of};

use super::PublicationSource;

verus! {

pub const DEFAULT_BASE_URL: &'static str = "https://aur.archlinux.org";

/// Metadata for one AUR package base.
#[derive(Debug, Clone, PartialEq, Eq)]
pub struct AurInfo {
    pub name: String,
    pub version: String,
    pub last_modified: Option<i64>,
    pub depends: Vec<DepSpec>,
}

/// The abstract value of an [`AurInfo`].
pub struct AurInfoView {
    pub name: Seq<char>,
    pub version: Seq<char>,
    pub last_modified: Option<i64>,
    pub depends: Seq<DepSpecView>,
}

impl View for AurInfo {
    type V = AurInfoView;

    open spec fn view(&self) -> AurInfoView {
        AurInfoView {
            name: self.name@,
            version: self.version@,
            last_modified: self.last_modified,
            depends: dep_views(self.depends@),
        }
    }
}

/// One package of an RPC `info` reply.
#[derive(Debug, Clone)]
pub struct RpcResult {
    pub name: String,
    pub version: String,
    pub last_modified: Option<i64>,
    pub depends: Option<Vec<String>>,
}

/// An RPC reply: its `type`, the `error` text of an error reply, and the
/// packages.
#[derive(Debug, Clone)]
pub struct RpcResponse {
    pub kind: String,
    pub error: Option<String>,
    pub results: Vec<RpcResult>,
}

/// The dependency entries among `raw` that parse, in order.
pub open spec fn parsed_deps(raw: Seq<String>) -> Seq<DepSpecView>
    decreases raw.len(),
{
    if raw.len() == 0 {
        seq![]
    } else {
        let rest = parsed_deps(raw.drop_last());
        match parse_dep_spec(raw.last()@) {
            Some(d) => rest.push(d),
            None => rest,
        }
    }
}

/// The metadata one RPC result describes.
pub open spec fn info_of(r: RpcResult) -> AurInfoView {
    AurInfoView {
        name: r.name@,
        version: r.version@,
        last_modified: r.last_modified,
        depends: match r.depends {
            Some(d) => parsed_deps(d@),
            None => seq![],
        },
    }
}

/// The metadata a reply carries, or the error text of an error reply.
pub open spec fn infos_spec(resp: RpcResponse) -> core::result::Result<Seq<AurInfoView>, Seq<char>> {
    if resp.kind@ == "error"@ {
        Err(
            match resp.error {
                Some(e) => e@,
                None => "unspecified AUR error"@,
            },
        )
    } else {
        Ok(resp.results@.map_values(|r: RpcResult| info_of(r)))
    }
}

pub open spec fn info_views(v: Seq<AurInfo>) -> Seq<AurInfoView> {
    v.map_values(|i: AurInfo| i@)
}

fn parse_deps(raw: &Vec<String>) -> (r: Vec<DepSpec>)
    ensures
        dep_views(r@) == parsed_deps(raw@),
{
    let mut out: Vec<DepSpec> = Vec::new();
    let n = raw.len();
    for i in 0..n
        invariant
            n == raw@.len(),
            dep_views(out@) == parsed_deps(raw@.take(i as int)),
    {
        assert(raw@.take(i + 1).drop_last() == raw@.take(i as int));
        match DepSpec::parse(raw[i].as_str()) {
            Some(d) => {
                let ghost before = out@;
                out.push(d);
                assert(dep_views(out@) == dep_views(before).push(d@));
            },
            None => {},
        }
    }
    assert(raw@.take(n as int) == raw@);
    out
}

/// The metadata of an RPC reply, or the error an error reply reports.
/// Dependency entries that do not parse are left out.
pub fn infos_from_response(resp: RpcResponse) -> (r: core::result::Result<Vec<AurInfo>, String>)
    ensures
        match r {
            Ok(v) => infos_spec(resp) == Ok::<Seq<AurInfoView>, Seq<char>>(info_views(v@)),
            Err(e) => infos_spec(resp) == Err::<Seq<AurInfoView>, Seq<char>>(e@),
        },
{
    if str_eq(resp.kind.as_str(), "error") {
        return match resp.error {
            Some(e) => Err(e),
            None => Err(string_of("unspecified AUR error")),
        };
    }
    let ghost results = resp.results@;
    let mut infos: Vec<AurInfo> = Vec::new();
    let n = resp.results.len();
    for i in 0..n
        invariant
            n == resp.results@.len(),
            results == resp.results@,
            info_views(infos@) == results.take(i as int).map_values(|r: RpcResult| info_of(r)),
    {
        let r = &resp.results[i];
        let depends = match &r.depends {
            Some(d) => parse_deps(d),
            None => Vec::new(),
        };
        assert(dep_views(depends@) =~= info_of(*r).depends);
        let ghost before = infos@;
        infos.push(
            AurInfo {
                name: r.name.clone(),
                version: r.version.clone(),
                last_modified: r.last_modified,
                depends,
            },
        );
        assert(info_views(infos@) == info_views(before).push(info_of(*r)));
        assert(results.take(i + 1).map_values(|r: RpcResult| info_of(r)) == results.take(
            i as int,
        ).map_values(|r: RpcResult| info_of(r)).push(info_of(*r)));
    }
    assert(results.take(n as int) == results);
    Ok(infos)
}

/// `arg[]=a&arg[]=b...`.
pub open spec fn info_query(names: Seq<Seq<char>>) -> Seq<char>
    decreases names.len(),
{
    if names.len() == 0 {
        seq![]
    } else if names.len() == 1 {
        "arg[]="@ + names[0]
    } else {
        info_query(names.drop_last()) + "&"@ + "arg[]="@ + names.last()
    }
}

/// The multi-info request for `names`: `{base_url}/rpc/v5/info?arg[]=..`.
pub fn info_url(base_url: &str, names: &[String]) -> (r: String)
    ensures
        r@ == base_url@ + "/rpc/v5/info?"@ + info_query(names@.map_values(|n: String| n@)),
{
    let ghost ns = names@.map_values(|n: String| n@);
    let mut query = String::new();
    let n = names.len();
    for i in 0..n
        invariant
            n == names@.len() == ns.len(),
            ns == names@.map_values(|n: String| n@),
            query@ == info_query(ns.take(i as int)),
    {
        assert(ns.take(i + 1).drop_last() == ns.take(i as int));
        if i > 0 {
            push_str(&mut query, "&");
        }
        push_str(&mut query, "arg[]=");
        push_str(&mut query, names[i].as_str());
    }
    assert(ns.take(n as int) == ns);
    let mut url = string_of(base_url);
    push_str(&mut url, "/rpc/v5/info?");
    push_str(&mut url, query.as_str());
    url
}

/// The multi-info request for `names`: none when there are no names (no
/// request is made then), else its URL ([`info_url`]).
pub fn info_request(base_url: &str, names: &[String]) -> (r: Option<String>)
    ensures
        names@.len() == 0 <==> r is None,
        r matches Some(u) ==> u@ == base_url@ + "/rpc/v5/info?"@ + info_query(
            names@.map_values(|n: String| n@),
        ),
{
    if names.len() == 0 {
        None
    } else {
        Some(info_url(base_url, names))
    }
}

/// The body of an RPC reply; a missing endpoint is an error.
pub fn rpc_body(outcome: FetchOutcome, url: &str) -> (r: Result<String>)
    ensures
        match outcome {
            FetchOutcome::Body(b) => r == Ok::<String, Error>(b),
            FetchOutcome::NotFound => r matches Err(Error::Http { url: u, message }) && u@ == url@
                && message@ == "AUR RPC endpoint not found"@,
        },
{
    match outcome {
        FetchOutcome::Body(b) => Ok(b),
        FetchOutcome::NotFound => Err(Error::http(url, "AUR RPC endpoint not found")),
    }
}

/// The metadata recorded for `name`; a later entry wins.
pub open spec fn info_lookup(infos: Seq<AurInfo>, name: Seq<char>) -> Option<AurInfo>
    decreases infos.len(),
{
    if infos.len() == 0 {
        None
    } else if infos.last().name@ == name {
        Some(infos.last())
    } else {
        info_lookup(infos.drop_last(), name)
    }
}

/// The metadata recorded for `name`, if any.
pub fn find_info<'b>(infos: &'b Vec<AurInfo>, name: &str) -> (r: Option<&'b AurInfo>)
    ensures
        match r {
            Some(i) => info_lookup(infos@, name@) == Some(*i),
            None => info_lookup(infos@, name@) is None,
        },
{
    let mut i = infos.len();
    assert(infos@.take(i as int) == infos@);
    while i > 0
        invariant
            i <= infos@.len(),
            info_lookup(infos@, name@) == info_lookup(infos@.take(i as int), name@),
        decreases i,
    {
        assert(infos@.take(i as int).drop_last() == infos@.take(i - 1));
        if str_eq(infos[i - 1].name.as_str(), name) {
            return Some(&infos[i - 1]);
        }
        i = i - 1;
    }
    None
}

/// Publication source backed by pre-fetched AUR metadata.
pub struct AurPublicationSource<'a> {
    pub infos: &'a Vec<AurInfo>,
    pub heuristic: bool,
}

/// The heuristic publication of `candidate`: the `LastModified` of its
/// package base, when the heuristic is on and the AUR still reports the
/// candidate's version; unknown otherwise.
pub open spec fn aur_publication(infos: Seq<AurInfo>, heuristic: bool, candidate: UpgradeCandidate) -> Publication {
    match info_lookup(infos, candidate.name@) {
        None => Publication::unknown_spec(),
        Some(info) => if !heuristic || info.version@ != candidate.candidate_version@ {
            Publication::unknown_spec()
        } else {
            match info.last_modified {
                Some(ts) => Publication {
                    published_at: Some(ts),
                    basis: PublicationBasis::AurLastModified,
                },
                None => Publication::unknown_spec(),
            }
        },
    }
}

impl<'a> PublicationSource for AurPublicationSource<'a> {
    fn publication(&self, candidate: &UpgradeCandidate) -> (r: Result<Publication>)
        ensures
            r == Ok::<Publication, Error>(aur_publication(self.infos@, self.heuristic, *candidate)),
    {
        let info = match find_info(self.infos, candidate.name.as_str()) {
            Some(i) => i,
            None => {
                return Ok(Publication::unknown());
            },
        };
        if !self.heuristic {
            return Ok(Publication::unknown());
        }
        // LastModified only describes the *current* AUR version; if the RPC
        // reports a different version than our candidate, the field says
        // nothing about the candidate.
        if !str_eq(info.version.as_str(), candidate.candidate_version.as_str()) {
            return Ok(Publication::unknown());
        }
        match info.last_modified {
            Some(ts) => Ok(Publication::known(ts, PublicationBasis::AurLastModified)),
            None => Ok(Publication::unknown()),
        }
    }
}

} // verus!
