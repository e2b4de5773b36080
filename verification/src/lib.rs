//! Moderation core for a community chat space.
//!
//! The library models the temporary-suspension scheduler of a chat
//! moderation bot: a durable ledger of suspension records, an expiry
//! scheduler with one single-shot timer per suspended user, the
//! idempotent release sequence, the acknowledgement gate that grants a
//! member capability on a reaction to a pinned rules message, and the
//! recovery bootstrap that rebuilds the schedule from the ledger after
//! a restart. Everything that talks to the chat platform or to the disk
//! is left to the surrounding process; the library takes plain values
//! in and hands decisions and effects back out.

pub mod caps;
pub mod clock;
pub mod codec;
pub mod errors;
pub mod gate;
pub mod ledger;
pub mod moderator;
pub mod sched;
pub mod timeparse;
