//! Comparison of version strings, done by the `version_compare` crate.
use vstd::prelude::*;

verus! {

/// The comparison operators of `version_compare::Cmp`.
#[derive(Clone, Copy, PartialEq, Eq, Debug, Structural)]
pub enum VersionRel {
    Eq,
    Ne,
    Lt,
    Le,
    Ge,
    Gt,
}

/// What `version_compare::compare(a, b)` gives for the version strings `a`
/// and `b`: their order, or nothing when one of them is not a version.
pub uninterp spec fn spec_version_compare(a: Seq<char>, b: Seq<char>) -> Option<VersionRel>;

/// Whether an order `c` between two versions satisfies `operator`, as
/// `version_compare::Version::compare_to` decides it.
pub open spec fn rel_satisfies(c: VersionRel, operator: VersionRel) -> bool {
    match c {
        VersionRel::Eq => operator == VersionRel::Eq || operator == VersionRel::Le || operator
            == VersionRel::Ge,
        VersionRel::Lt => operator == VersionRel::Ne || operator == VersionRel::Lt || operator
            == VersionRel::Le,
        VersionRel::Gt => operator == VersionRel::Ne || operator == VersionRel::Gt || operator
            == VersionRel::Ge,
        _ => false,
    }
}

/// What `version_compare::compare_to(a, b, operator)` gives.
pub open spec fn spec_version_compare_to(a: Seq<char>, b: Seq<char>, operator: VersionRel) -> Option<
    bool,
> {
    match spec_version_compare(a, b) {
        Some(c) => Some(rel_satisfies(c, operator)),
        None => None,
    }
}

/// Calls `version_compare::compare`. Its result is named by
/// `spec_version_compare`; the crate documents that an order is only ever
/// `Eq`, `Lt` or `Gt`. Nothing else is claimed of the crate's ordering.
#[verifier::external_body]
pub(crate) fn compare_versions(a: &str, b: &str) -> (r: Option<VersionRel>)
    ensures
        r == spec_version_compare(a@, b@),
        r matches Some(c) ==> (c == VersionRel::Eq || c == VersionRel::Lt || c == VersionRel::Gt),
{
    match version_compare::compare(a, b) {
        Ok(version_compare::Cmp::Eq) => Some(VersionRel::Eq),
        Ok(version_compare::Cmp::Ne) => Some(VersionRel::Ne),
        Ok(version_compare::Cmp::Lt) => Some(VersionRel::Lt),
        Ok(version_compare::Cmp::Le) => Some(VersionRel::Le),
        Ok(version_compare::Cmp::Ge) => Some(VersionRel::Ge),
        Ok(version_compare::Cmp::Gt) => Some(VersionRel::Gt),
        Err(()) => None,
    }
}

/// Calls `version_compare::compare_to`. Its source parses both versions as
/// `compare` does and then tests the order they have against `operator`,
/// which is what `spec_version_compare_to` states.
#[verifier::external_body]
pub(crate) fn compare_versions_to(a: &str, b: &str, operator: VersionRel) -> (r: Option<bool>)
    ensures
        r == spec_version_compare_to(a@, b@, operator),
{
    let op = match operator {
        VersionRel::Eq => version_compare::Cmp::Eq,
        VersionRel::Ne => version_compare::Cmp::Ne,
        VersionRel::Lt => version_compare::Cmp::Lt,
        VersionRel::Le => version_compare::Cmp::Le,
        VersionRel::Ge => version_compare::Cmp::Ge,
        VersionRel::Gt => version_compare::Cmp::Gt,
    };
    version_compare::compare_to(a, b, op).ok()
}

} // verus!
