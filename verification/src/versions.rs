//! Versions and version requirements, as the `semver` crate reads them.

use vstd::prelude::*;
use vstd::string::*;
use cargo_metadata::semver;

verus! {

/// What `semver::VersionReq::matches` answers on a requirement and a version that are read
/// from their texts, or none if one of the two is malformed.
pub uninterp spec fn semver_matches(req: Seq<char>, version: Seq<char>) -> Option<bool>;

/// Calls `semver::VersionReq::parse` and `semver::Version::parse`, and
/// `semver::VersionReq::matches` on the two; all of that depends on the two texts alone.
#[verifier::external_body]
pub(crate) fn requirement_met(req: &str, version: &str) -> (r: Option<bool>)
    ensures
        r == semver_matches(req@, version@),
{
    match (semver::VersionReq::parse(req), semver::Version::parse(version)) {
        (Ok(req), Ok(version)) => Some(req.matches(&version)),
        _ => None,
    }
}

/// The pre-release of what `semver::Version::parse` reads, or none if the text is no
/// version.
pub uninterp spec fn semver_pre(text: Seq<char>) -> Option<Seq<char>>;

/// Calls `semver::Version::parse` and takes the pre-release (empty when there is none) of
/// the version; both depend on the text alone.
#[verifier::external_body]
pub(crate) fn pre_release(text: &str) -> (r: Option<String>)
    ensures
        r.deep_view() == semver_pre(text@),
{
    match semver::Version::parse(text) {
        Ok(v) => Some(v.pre.as_str().to_string()),
        Err(_) => None,
    }
}

/// One version does not come after another in the order of `semver::Version`; a text that
/// is no version comes before all versions.
pub uninterp spec fn semver_le(a: Seq<char>, b: Seq<char>) -> bool;

/// Compares what `semver::Version::parse` reads from two texts by the total order of
/// `semver::Version`, a failed parse first. Being a total order, it holds in one direction
/// at least, and carries over from one text to the next.
#[verifier::external_body]
pub(crate) fn not_after(a: &str, b: &str) -> (r: bool)
    ensures
        r == semver_le(a@, b@),
        r || semver_le(b@, a@),
        r ==> forall|c: Seq<char>| #[trigger] semver_le(c, a@) ==> semver_le(c, b@),
{
    semver::Version::parse(a).ok() <= semver::Version::parse(b).ok()
}

} // verus!
