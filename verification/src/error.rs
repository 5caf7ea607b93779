//! The failures that the engine reports.

use vstd::prelude::*;

verus! {

/// Why a reply of the remote service was not accepted.
#[derive(Clone, Copy, Debug, PartialEq, Eq, Structural)]
pub enum ProtocolFault {
    /// The service answered with this HTTP status, which is no success.
    Status(u16),
    /// The payload does not have the expected shape.
    Payload,
}

/// Why a selection was not accepted.
#[derive(Clone, Copy, Debug, PartialEq, Eq, Structural)]
pub enum SelectionFault {
    /// The input is not a number.
    NotANumber,
    /// No entry of the catalog has this index.
    OutOfRange(usize),
}

/// A failure of one operation.
#[derive(Clone, Copy, Debug, PartialEq, Eq, Structural)]
pub enum AurorusError {
    /// The remote service could not be reached.
    Network,
    /// The remote service answered, but not with a usable reply.
    Protocol(ProtocolFault),
    /// A local tool could not be started.
    Tooling,
    /// The manifest of a package was refused with this HTTP status.
    NotFound(u16),
    /// A selection names no entry of the catalog.
    Selection(SelectionFault),
}

/// Whether an HTTP status reports success: the codes 200 to 299.
pub open spec fn is_success(status: u16) -> bool {
    200 <= status && status <= 299
}

/// Accepts the status of a reply to a search or info query.
pub fn check_query_status(status: u16) -> (r: Result<(), AurorusError>)
    ensures
        r == if is_success(status) {
            Ok::<(), AurorusError>(())
        } else {
            Err::<(), AurorusError>(AurorusError::Protocol(ProtocolFault::Status(status)))
        },
{
    if 200 <= status && status <= 299 {
        Ok(())
    } else {
        Err(AurorusError::Protocol(ProtocolFault::Status(status)))
    }
}

/// Accepts the status of a reply to a manifest fetch.
pub fn check_manifest_status(status: u16) -> (r: Result<(), AurorusError>)
    ensures
        r == if is_success(status) {
            Ok::<(), AurorusError>(())
        } else {
            Err::<(), AurorusError>(AurorusError::NotFound(status))
        },
{
    if 200 <= status && status <= 299 {
        Ok(())
    } else {
        Err(AurorusError::NotFound(status))
    }
}

} // verus!
