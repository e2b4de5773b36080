//! The wall clock, for operations that schedule relative to now.

use vstd::prelude::*;

verus! {

/// Relies on `chrono::Utc::now` for the current instant, reduced to
/// whole seconds since the Unix epoch. Nothing is promised of the
/// result: the clock is outside the program, and callers must hold for
/// every reading.
#[verifier::external_body]
pub(crate) fn now_utc() -> (r: i64) {
    chrono::Utc::now().timestamp()
}

} // verus!
