//! Scraping the registry search response for a package's latest published
//! version, and the pure diff that builds the outdated set.
//!
//! A successful response starts with the exact prefix `<name> = "`; the
//! latest version is what stands between that opening quote and the next
//! quote. A response of any other shape means the registry has no match for
//! the exact name, and the package is skipped. A response that matches the
//! prefix but never closes the quote breaks the response contract and is
//! reported as a parse error rather than ignored.

use vstd::prelude::*;

use crate::bytes::bytes_eq;
use crate::bytes::find_from;
use crate::bytes::first_where;
use crate::bytes::is_prefix_of;
use crate::bytes::lemma_first_where;
use crate::bytes::starts_with;
use crate::package::Package;
use crate::package::PackageV;

verus! {

/// A registry response that matched `<name> = "` but held no closing quote.
#[derive(Clone, Copy, Debug, PartialEq, Eq, Structural)]
pub enum ResolveError {
    MissingClosingQuote,
}

/// The prefix a matching registry response starts with: the package name
/// followed by ` = "`.
pub open spec fn spec_search_prefix(name: Seq<u8>) -> Seq<u8> {
    name + seq![32u8, 61u8, 32u8, 34u8]
}

/// What scraping a registry response yields: `Ok(None)` when the response
/// does not start with the package's prefix, the version between the quotes
/// when it does, and an error when the closing quote is missing.
pub open spec fn spec_search_result(name: Seq<u8>, resp: Seq<u8>) -> Result<
    Option<Seq<u8>>,
    ResolveError,
> {
    let p = spec_search_prefix(name);
    if !is_prefix_of(p, resp) {
        Ok(None)
    } else {
        let rest = resp.skip(p.len() as int);
        let q = first_where(rest, |b: u8| b == 34u8);
        if q < rest.len() {
            Ok(Some(rest.take(q)))
        } else {
            Err(ResolveError::MissingClosingQuote)
        }
    }
}

/// The model of an executable search result.
pub open spec fn view_search_result(r: Result<Option<Vec<u8>>, ResolveError>) -> Result<
    Option<Seq<u8>>,
    ResolveError,
> {
    match r {
        Ok(Some(v)) => Ok(Some(v@)),
        Ok(None) => Ok(None),
        Err(e) => Err(e),
    }
}

/// Extract the latest published version of the named package from the raw
/// registry search response.
pub fn parse_search_response(name: &[u8], response: &[u8]) -> (r: Result<
    Option<Vec<u8>>,
    ResolveError,
>)
    ensures
        view_search_result(r) == spec_search_result(name@, response@),
{
    let mut prefix = vstd::slice::slice_to_vec(name);
    prefix.push(32u8);
    prefix.push(61u8);
    prefix.push(32u8);
    prefix.push(34u8);
    proof {
        assert(prefix@ =~= spec_search_prefix(name@));
    }
    if !starts_with(response, prefix.as_slice()) {
        return Ok(None);
    }
    let plen = prefix.len();
    let q = find_from(response, plen, 34u8);
    proof {
        let rest = response@.skip(plen as int);
        let quote = |b: u8| b == 34u8;
        lemma_first_where(rest, quote);
        let f = first_where(rest, quote);
        assert(forall|k: int| 0 <= k < rest.len() ==> rest[k] == response@[plen + k]);
        assert(f == q - plen) by {
            if f < q - plen {
                assert(rest[f] == 34);
                assert(response@[plen + f] != 34);
            }
            if q - plen < f {
                assert(!quote(rest[q - plen]));
            }
        }
    }
    if q >= response.len() {
        return Err(ResolveError::MissingClosingQuote);
    }
    let latest = vstd::slice::slice_to_vec(&response[plen..q]);
    proof {
        let rest = response@.skip(plen as int);
        assert(rest.take(q - plen) =~= response@.subrange(plen as int, q as int));
    }
    Ok(Some(latest))
}

/// What resolving one installed package against its registry response
/// yields: the enriched record exactly when the resolved latest version
/// differs from the installed one, nothing when the registry has no match or
/// the versions agree, and the parse error of a quote-less response.
pub open spec fn spec_resolve_package(p: PackageV, resp: Seq<u8>) -> Result<
    Option<PackageV>,
    ResolveError,
> {
    match spec_search_result(p.name, resp) {
        Err(e) => Err(e),
        Ok(None) => Ok(None),
        Ok(Some(latest)) => if latest != p.version {
            Ok(Some(PackageV { name: p.name, version: p.version, new_version: Some(latest) }))
        } else {
            Ok(None)
        },
    }
}

/// The model of an executable per-package resolution.
pub open spec fn view_resolved(r: Result<Option<Package>, ResolveError>) -> Result<
    Option<PackageV>,
    ResolveError,
> {
    match r {
        Ok(Some(p)) => Ok(Some(p@)),
        Ok(None) => Ok(None),
        Err(e) => Err(e),
    }
}

/// Resolve one installed package against the raw registry response captured
/// for its name.
pub fn resolve_package(package: &Package, response: &[u8]) -> (r: Result<
    Option<Package>,
    ResolveError,
>)
    ensures
        view_resolved(r) == spec_resolve_package(package@, response@),
{
    match parse_search_response(package.name.as_slice(), response) {
        Err(e) => Err(e),
        Ok(None) => Ok(None),
        Ok(Some(latest)) => {
            if bytes_eq(latest.as_slice(), package.version.as_slice()) {
                Ok(None)
            } else {
                let name = vstd::slice::slice_to_vec(package.name.as_slice());
                let version = vstd::slice::slice_to_vec(package.version.as_slice());
                Ok(Some(Package { name, version, new_version: Some(latest) }))
            }
        },
    }
}

/// The ordered outdated subset of `ps`, each entry resolved against the
/// response of the same index: packages with no registry match or an
/// unchanged version are dropped, inventory order is kept, and the first
/// malformed matching response aborts the whole diff.
pub open spec fn spec_build_outdated(ps: Seq<PackageV>, rs: Seq<Seq<u8>>) -> Result<
    Seq<PackageV>,
    ResolveError,
>
    decreases ps.len(),
{
    if ps.len() == 0 {
        Ok(Seq::empty())
    } else {
        match spec_resolve_package(ps[0], rs[0]) {
            Err(e) => Err(e),
            Ok(opt) => match spec_build_outdated(ps.skip(1), rs.skip(1)) {
                Err(e) => Err(e),
                Ok(tail) => Ok(
                    (match opt {
                        Some(p) => seq![p],
                        None => Seq::empty(),
                    }) + tail,
                ),
            },
        }
    }
}

/// The model of an executable outdated-set result.
pub open spec fn view_outdated_result(r: Result<Vec<Package>, ResolveError>) -> Result<
    Seq<PackageV>,
    ResolveError,
> {
    match r {
        Ok(v) => Ok(v@.map_values(|p: Package| p@)),
        Err(e) => Err(e),
    }
}

/// Build the outdated set from the installed packages and the registry
/// responses captured for them, one response per package, in order.
pub fn build_outdated(packages: &Vec<Package>, responses: &Vec<Vec<u8>>) -> (r: Result<
    Vec<Package>,
    ResolveError,
>)
    requires
        packages@.len() == responses@.len(),
    ensures
        view_outdated_result(r) == spec_build_outdated(
            packages@.map_values(|p: Package| p@),
            responses@.map_values(|v: Vec<u8>| v@),
        ),
{
    let ghost ps = packages@.map_values(|p: Package| p@);
    let ghost rs = responses@.map_values(|v: Vec<u8>| v@);
    let mut out: Vec<Package> = Vec::new();
    let mut i: usize = 0;
    proof {
        assert(ps.skip(0) =~= ps);
        assert(rs.skip(0) =~= rs);
        assert(out@.map_values(|p: Package| p@) =~= Seq::<PackageV>::empty());
    }
    while i < packages.len()
        invariant
            i <= packages@.len(),
            packages@.len() == responses@.len(),
            ps == packages@.map_values(|p: Package| p@),
            rs == responses@.map_values(|v: Vec<u8>| v@),
            spec_build_outdated(ps, rs) == (match spec_build_outdated(
                ps.skip(i as int),
                rs.skip(i as int),
            ) {
                Ok(tail) => Ok(out@.map_values(|p: Package| p@) + tail),
                Err(e) => Err::<Seq<PackageV>, ResolveError>(e),
            }),
        decreases packages@.len() - i,
    {
        let ghost prev = out@.map_values(|p: Package| p@);
        proof {
            assert(ps.skip(i as int)[0] == ps[i as int]);
            assert(rs.skip(i as int)[0] == rs[i as int]);
            assert(ps.skip(i as int).skip(1) =~= ps.skip(i as int + 1));
            assert(rs.skip(i as int).skip(1) =~= rs.skip(i as int + 1));
        }
        match resolve_package(&packages[i], responses[i].as_slice()) {
            Err(e) => {
                return Err(e);
            },
            Ok(opt) => {
                match opt {
                    Some(pkg) => {
                        proof {
                            assert(out@.push(pkg).map_values(|p: Package| p@) =~= prev.push(pkg@));
                            if spec_build_outdated(ps.skip(i as int + 1), rs.skip(i as int + 1))
                                is Ok {
                                let tail = spec_build_outdated(
                                    ps.skip(i as int + 1),
                                    rs.skip(i as int + 1),
                                )->Ok_0;
                                assert(prev + (seq![pkg@] + tail) =~= prev.push(pkg@) + tail);
                            }
                        }
                        out.push(pkg);
                    },
                    None => {
                        proof {
                            if spec_build_outdated(ps.skip(i as int + 1), rs.skip(i as int + 1))
                                is Ok {
                                let tail = spec_build_outdated(
                                    ps.skip(i as int + 1),
                                    rs.skip(i as int + 1),
                                )->Ok_0;
                                assert(Seq::<PackageV>::empty() + tail =~= tail);
                            }
                        }
                    },
                }
            },
        }
        i += 1;
    }
    proof {
        assert(ps.skip(i as int) =~= Seq::<PackageV>::empty());
        assert(rs.skip(i as int) =~= Seq::<Seq<u8>>::empty());
        assert(out@.map_values(|p: Package| p@) + Seq::<PackageV>::empty() =~= out@.map_values(
            |p: Package| p@,
        ));
    }
    Ok(out)
}

/// A package whose registry response does not start with `<name> = "`
/// resolves to no match, whatever its installed version, and so never enters
/// the outdated set.
pub proof fn lemma_no_match_excluded(p: PackageV, resp: Seq<u8>)
    requires
        !is_prefix_of(spec_search_prefix(p.name), resp),
    ensures
        spec_resolve_package(p, resp) == Ok::<Option<PackageV>, ResolveError>(None),
{
}

/// Whether some installed package of the snapshot resolved, against its own
/// response, to exactly the outdated record `rec`.
pub open spec fn traces_to(ps: Seq<PackageV>, rs: Seq<Seq<u8>>, rec: PackageV) -> bool {
    exists|i: int|
        0 <= i < ps.len() && #[trigger] spec_resolve_package(ps[i], rs[i]) == Ok::<
            Option<PackageV>,
            ResolveError,
        >(Some(rec))
}

/// Every record of the outdated set traces back to an input record: some
/// installed package resolved, against its own response, to exactly that
/// outdated record.
pub proof fn lemma_build_outdated_names(ps: Seq<PackageV>, rs: Seq<Seq<u8>>)
    requires
        ps.len() == rs.len(),
        spec_build_outdated(ps, rs) is Ok,
    ensures
        forall|j: int|
            0 <= j < spec_build_outdated(ps, rs)->Ok_0.len() ==> #[trigger] traces_to(
                ps,
                rs,
                spec_build_outdated(ps, rs)->Ok_0[j],
            ),
    decreases ps.len(),
{
    if ps.len() > 0 {
        lemma_build_outdated_names(ps.skip(1), rs.skip(1));
        let out = spec_build_outdated(ps, rs)->Ok_0;
        let tail = spec_build_outdated(ps.skip(1), rs.skip(1))->Ok_0;
        let head = match spec_resolve_package(ps[0], rs[0])->Ok_0 {
            Some(p) => seq![p],
            None => Seq::<PackageV>::empty(),
        };
        assert(out == head + tail);
        assert forall|j: int| 0 <= j < out.len() implies #[trigger] traces_to(
            ps,
            rs,
            out[j],
        ) by {
            if j < head.len() {
                assert(out[j] == head[0]);
                assert(spec_resolve_package(ps[0], rs[0]) == Ok::<Option<PackageV>, ResolveError>(
                    Some(out[j]),
                ));
            } else {
                assert(out[j] == tail[j - head.len()]);
                assert(traces_to(ps.skip(1), rs.skip(1), out[j]));
                let i0 = choose|i0: int|
                    0 <= i0 < ps.skip(1).len() && #[trigger] spec_resolve_package(
                        ps.skip(1)[i0],
                        rs.skip(1)[i0],
                    ) == Ok::<Option<PackageV>, ResolveError>(Some(out[j]));
                assert(ps.skip(1)[i0] == ps[i0 + 1]);
                assert(rs.skip(1)[i0] == rs[i0 + 1]);
                assert(spec_resolve_package(ps[i0 + 1], rs[i0 + 1]) == Ok::<
                    Option<PackageV>,
                    ResolveError,
                >(Some(out[j])));
            }
        }
    }
}

/// A package whose registry response does not match never appears in the
/// outdated set: when names are unique within the snapshot, no record of the
/// set carries its name.
pub proof fn lemma_no_match_not_in_outdated(ps: Seq<PackageV>, rs: Seq<Seq<u8>>, k: int)
    requires
        ps.len() == rs.len(),
        0 <= k < ps.len(),
        !is_prefix_of(spec_search_prefix(ps[k].name), rs[k]),
        forall|i: int, j: int| 0 <= i < j < ps.len() ==> ps[i].name != ps[j].name,
        spec_build_outdated(ps, rs) is Ok,
    ensures
        forall|j: int|
            0 <= j < spec_build_outdated(ps, rs)->Ok_0.len() ==> (#[trigger] spec_build_outdated(
                ps,
                rs,
            )->Ok_0[j]).name != ps[k].name,
{
    lemma_build_outdated_names(ps, rs);
    let out = spec_build_outdated(ps, rs)->Ok_0;
    assert forall|j: int| 0 <= j < out.len() implies (#[trigger] out[j]).name != ps[k].name by {
        assert(traces_to(ps, rs, out[j]));
        let i = choose|i: int|
            0 <= i < ps.len() && #[trigger] spec_resolve_package(ps[i], rs[i]) == Ok::<
                Option<PackageV>,
                ResolveError,
            >(Some(out[j]));
        assert(out[j].name == ps[i].name);
        if out[j].name == ps[k].name {
            assert(i == k);
            assert(spec_resolve_package(ps[k], rs[k]) == Ok::<Option<PackageV>, ResolveError>(
                None,
            ));
        }
    }
}

/// Every record the builder returns is outdated — a latest version was
/// resolved and differs from the installed one — and, when every input
/// record is well formed, so is every output record.
pub proof fn lemma_build_outdated_sound(ps: Seq<PackageV>, rs: Seq<Seq<u8>>)
    requires
        spec_build_outdated(ps, rs) is Ok,
    ensures
        forall|k: int|
            0 <= k < spec_build_outdated(ps, rs)->Ok_0.len() ==> (#[trigger] spec_build_outdated(
                ps,
                rs,
            )->Ok_0[k]).is_outdated(),
        (forall|k: int| 0 <= k < ps.len() ==> (#[trigger] ps[k]).wf()) ==> (forall|k: int|
            0 <= k < spec_build_outdated(ps, rs)->Ok_0.len() ==> (#[trigger] spec_build_outdated(
                ps,
                rs,
            )->Ok_0[k]).wf()),
    decreases ps.len(),
{
    if ps.len() > 0 {
        lemma_build_outdated_sound(ps.skip(1), rs.skip(1));
        assert(forall|k: int| 0 <= k < ps.skip(1).len() ==> ps.skip(1)[k] == ps[k + 1]);
    }
}

} // verus!
