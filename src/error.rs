//! Errors that end a reconciliation pass for one tenant.

use vstd::prelude::*;

verus! {

/// The part of a tenant's setup that is missing.
#[derive(PartialEq, Eq, Structural, Clone, Copy, Debug)]
pub enum MissingConfig {
    /// No container resource (channel category) is configured.
    Container,
    /// No membership system is configured.
    MembershipSystem,
}

/// Why a pass for one tenant stopped before applying anything.
pub enum PassError {
    /// The tenant is not set up; reported to the user, not logged as an error.
    ConfigMissing(MissingConfig),
    /// The membership service could not be read or its answer not understood.
    Fetch(String),
    /// The desired set holds this many entities, more than positions can index.
    PositionOverflow(usize),
}

} // verus!
