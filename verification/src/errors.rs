//! Error taxonomy of the moderation core.

use vstd::prelude::*;

verus! {

/// What can go wrong in a core operation.
///
/// Durable-store failures are fatal to the triggering operation and are
/// surfaced; a missing record is never an error (it is modeled as
/// absence); a user identifier that fails to parse is rejected back to
/// the command caller.
#[derive(Clone, Copy, Debug, PartialEq, Eq, Structural)]
pub enum ModError {
    /// A durable write or read failed.
    StoreIO,
    /// A user identifier could not be parsed.
    MalformedIdentifier,
    /// A duration given to the timeout command could not be parsed.
    MalformedDuration,
}

} // verus!
