//! The ways in which a transfer can fail.

use vstd::prelude::*;

verus! {

/// Why a transfer ended without a published artifact, or with one whose
/// owner could not be set.
///
/// A deliberate cancellation is not among them: it is an outcome of its own.
#[derive(Debug, Clone, Copy, PartialEq, Eq, Structural)]
pub enum Error {
    /// The outbound request failed before or while the body was read
    /// (name resolution, connect, TLS, timeout).
    ReqwestError,
    /// The server answered with a status outside 200..=299; the status is kept.
    HttpStatusError(u16),
    /// Reading or writing the staging payload or the destination failed.
    StdIoError,
    /// The task that normalizes ownership could not be joined.
    JoinError,
    /// The artifact's path cannot be handed to the system call that sets its
    /// owner, because it holds a NUL byte.
    CStringNulError,
    /// The system refused to set the artifact's owner; the artifact stays.
    ChownError,
}

} // verus!
