//! Ordering of free-form version strings.
//!
//! The ordering itself is that of the `version_compare` crate. This module
//! adds the rule for empty strings and the outcome type that the rest of the
//! library decides on.

use vstd::prelude::*;

verus! {

/// Outcome of comparing two version strings.
#[derive(Clone, Copy, Debug, PartialEq, Eq, Structural)]
pub enum VersionOrder {
    /// The first version is the older one.
    Less,
    /// Neither version is newer.
    Equal,
    /// The first version is the newer one.
    Greater,
    /// The versions cannot be ordered.
    Incomparable,
}

/// The answer of `version_compare::compare` for the version strings `a` and
/// `b`: `Less`, `Equal` or `Greater` where it orders them, `Incomparable`
/// where it rejects one of them as no version. Nothing more is stated of it
/// here than that it depends on the two strings alone.
pub uninterp spec fn crate_order(a: Seq<char>, b: Seq<char>) -> VersionOrder;

/// Calls `version_compare::compare` on the two strings and hands its answer
/// on: `Lt`, `Eq` and `Gt` as the orders of the same meaning, an error (one of
/// the strings is no version) and the operators that `compare` does not
/// return as `Incomparable`. Trusted: that this answer is [`crate_order`] of
/// the two strings, which is to say that the call returns, and returns the
/// same for the same strings.
#[verifier::external_body]
fn crate_compare(a: &str, b: &str) -> (r: VersionOrder)
    ensures
        r == crate_order(a@, b@),
{
    match version_compare::compare(a, b) {
        Ok(version_compare::Cmp::Lt) => VersionOrder::Less,
        Ok(version_compare::Cmp::Eq) => VersionOrder::Equal,
        Ok(version_compare::Cmp::Gt) => VersionOrder::Greater,
        Ok(_) => VersionOrder::Incomparable,
        Err(()) => VersionOrder::Incomparable,
    }
}

/// How the version `a` stands to the version `b`. An empty string is no
/// version and compares with nothing; any other two strings compare as
/// [`crate_order`] says.
pub open spec fn spec_compare(a: Seq<char>, b: Seq<char>) -> VersionOrder {
    if a.len() == 0 || b.len() == 0 {
        VersionOrder::Incomparable
    } else {
        crate_order(a, b)
    }
}

impl VersionOrder {
    /// Whether this outcome, of comparing a remote version with an installed
    /// one, calls for an update. Only `Greater` does: where the versions
    /// cannot be ordered, no update is reported.
    pub fn is_newer(self) -> (r: bool)
        ensures
            r == (self == VersionOrder::Greater),
    {
        match self {
            VersionOrder::Greater => true,
            _ => false,
        }
    }
}

/// Compares the version `a` with the version `b`. Never fails: versions that
/// cannot be ordered are `Incomparable`.
pub fn compare(a: &str, b: &str) -> (r: VersionOrder)
    ensures
        r == spec_compare(a@, b@),
        a@.len() == 0 || b@.len() == 0 ==> r == VersionOrder::Incomparable,
{
    if a.is_empty() || b.is_empty() {
        VersionOrder::Incomparable
    } else {
        crate_compare(a, b)
    }
}

} // verus!
