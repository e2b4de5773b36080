//! The acknowledgement gate: the decision behind reaction events.
//!
//! Users accept the rules by reacting with the designated symbol on
//! the pinned acknowledgement message. The decision here works from the
//! pinned pointer, the event and the user's suspension state, what the
//! surrounding process must do: grant the member capability, revoke
//! it, retract the reaction of a suspended user, or nothing.

use vstd::prelude::*;
use crate::ledger::PinnedAck;

verus! {

/// The designated acknowledgement symbol.
pub const ACK_SYMBOL: char = '✅';

/// One reaction event from the chat platform, already reduced to
/// plain values: where it happened, which symbol, who, and whether the
/// reaction was added or removed.
#[derive(Clone, Copy, Debug, PartialEq, Eq, Structural)]
pub struct ReactionEvent {
    pub channel: u64,
    pub message: u64,
    pub emoji: char,
    pub user: u64,
    pub added: bool,
}

/// What the acknowledgement gate asks the surrounding process to do.
#[derive(Clone, Copy, Debug, PartialEq, Eq, Structural)]
pub enum GateAction {
    /// Not the pinned message, not the symbol, or nothing to change.
    Ignore,
    /// Grant the member capability to the reacting user.
    Grant,
    /// Revoke the member capability of the reacting user.
    Revoke,
    /// The user is suspended: retract the reaction, change nothing.
    Retract,
}

/// The acknowledgement gate's decision table.
///
/// An event counts only when a pinned acknowledgement message exists
/// and the event hits exactly that channel and message. A suspended
/// user never gains anything: an added reaction is retracted, a
/// removed one is ignored (there was no capability to lose). For
/// everyone else the designated symbol grants on add and revokes on
/// remove; any other symbol is ignored.
pub open spec fn gate_spec(pinned: Option<PinnedAck>, ev: ReactionEvent, suspended: bool) -> GateAction {
    match pinned {
        None => GateAction::Ignore,
        Some(p) => {
            if ev.channel != p.channel || ev.message != p.message {
                GateAction::Ignore
            } else if suspended {
                if ev.added {
                    GateAction::Retract
                } else {
                    GateAction::Ignore
                }
            } else if ev.emoji == ACK_SYMBOL {
                if ev.added {
                    GateAction::Grant
                } else {
                    GateAction::Revoke
                }
            } else {
                GateAction::Ignore
            }
        },
    }
}

/// Decides a reaction event. Pure: the returned action is exactly the
/// decision table [`gate_spec`] applied to the inputs.
pub fn gate_decision(pinned: Option<PinnedAck>, ev: &ReactionEvent, suspended: bool) -> (r: GateAction)
    ensures
        r == gate_spec(pinned, *ev, suspended),
{
    match pinned {
        None => GateAction::Ignore,
        Some(p) => {
            if ev.channel != p.channel || ev.message != p.message {
                GateAction::Ignore
            } else if suspended {
                if ev.added {
                    GateAction::Retract
                } else {
                    GateAction::Ignore
                }
            } else if ev.emoji == ACK_SYMBOL {
                if ev.added {
                    GateAction::Grant
                } else {
                    GateAction::Revoke
                }
            } else {
                GateAction::Ignore
            }
        },
    }
}

/// A suspended user never gains anything by reacting: no event
/// ever yields a grant (nor a revoke — there is nothing to revoke),
/// and an added reaction on the pinned message is always retracted.
pub proof fn lemma_suspended_never_granted(pinned: Option<PinnedAck>, ev: ReactionEvent)
    ensures
        gate_spec(pinned, ev, true) != GateAction::Grant,
        gate_spec(pinned, ev, true) != GateAction::Revoke,
        (ev.added && (pinned matches Some(p) && ev.channel == p.channel && ev.message
            == p.message)) ==> gate_spec(pinned, ev, true) == GateAction::Retract,
{
}

} // verus!
