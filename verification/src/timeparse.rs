//! Parsing of human-written durations ("10m", "2h 30s") for the
//! timeout command.

use vstd::prelude::*;
use vstd::string::StringSliceAdditionalSpecFns;

verus! {

/// The longest duration string the timeout command accepts, in bytes.
/// Generous for human-written forms ("10m", "2h 30m", "90days"), and
/// small enough that the parsed whole seconds stay far below `u64`'s
/// end: at most eleven digits fit beside a unit letter, and the
/// largest unit is the year at 31,557,600 seconds, so every accepted
/// string denotes fewer than 2^63 seconds.
pub const MAX_DURATION_LEN: usize = 12;

/// The whole seconds of the duration that the human-readable form `s`
/// denotes, or `None` when `s` denotes no duration. Deterministic: the
/// same characters always denote the same duration.
pub uninterp spec fn human_duration_secs(s: Seq<char>) -> Option<u64>;

/// Relies on `humantime::parse_duration`, a pure function of the
/// characters alone, for the meaning of the human-readable duration
/// form; whole seconds are kept, sub-second parts are dropped.
///
/// The length bound keeps the call total: `parse_duration`'s own
/// arithmetic is checked (overflow is an `Err`, never a panic), and
/// the one unchecked step — its final carry of a full second of
/// nanoseconds — can only overflow when the accumulated seconds
/// already equal `u64::MAX` exactly, which no string this short can
/// reach (see [`MAX_DURATION_LEN`]).
#[verifier::external_body]
pub(crate) fn parse_duration_secs(s: &str) -> (r: Option<u64>)
    requires
        s.spec_bytes().len() <= MAX_DURATION_LEN,
    ensures
        r == human_duration_secs(s@),
{
    match humantime::parse_duration(s) {
        Ok(d) => Some(d.as_secs()),
        Err(_) => None,
    }
}

} // verus!
