//! End-to-end behaviour of the moderation automaton.

use modbot::errors::ModError;
use modbot::gate::{GateAction, ReactionEvent};
use modbot::moderator::Moderator;

fn ack_add(channel: u64, message: u64, user: u64) -> ReactionEvent {
    ReactionEvent { channel, message, emoji: '✅', user, added: true }
}

fn ack_remove(channel: u64, message: u64, user: u64) -> ReactionEvent {
    ReactionEvent { channel, message, emoji: '✅', user, added: false }
}

#[test]
fn timeout_then_get_returns_expiry() {
    let mut m = Moderator::new();
    let out = m.timeout(42, 600, 1_000);
    assert_eq!(out.expiry, 1_600);
    assert!(!out.fired);
    assert_eq!(m.ledger.get(42), Some(1_600));
    // Untouched users stay untouched.
    assert_eq!(m.ledger.get(43), None);
}

#[test]
fn release_cancels_scheduled_timer() {
    let mut m = Moderator::new();
    let out = m.timeout(42, 600, 1_000);
    assert!(m.release(42));
    // The wait elapses later, but the timer lost the race: no second
    // release, no notification.
    assert_eq!(m.on_timer_fired(out.handle), None);
    assert_eq!(m.ledger.get(42), None);
}

#[test]
fn release_is_idempotent() {
    let mut m = Moderator::new();
    m.timeout(42, 600, 1_000);
    assert!(m.release(42));
    let second = m.release(42);
    assert!(!second);
    assert_eq!(m.ledger.get(42), None);
}

#[test]
fn release_of_unknown_user_is_noop() {
    let mut m = Moderator::new();
    assert!(!m.release(7));
    assert_eq!(m.ledger.get(7), None);
}

#[test]
fn natural_expiry_runs_release_once() {
    // timeout("42", "10m") writes (42, now + 600); once the ten
    // minutes have elapsed the record is gone and a notification was
    // attempted for exactly that user.
    let now = 50_000;
    let mut m = Moderator::new();
    let out = m
        .timeout_command(b"42", "10m", now)
        .expect("parsable command");
    assert_eq!(out.expiry, now + 600);
    assert_eq!(m.ledger.get(42), Some(now + 600));
    assert_eq!(m.on_timer_fired(out.handle), Some(42));
    assert_eq!(m.ledger.get(42), None);
    // The timer is single-use: it cannot fire twice.
    assert_eq!(m.on_timer_fired(out.handle), None);
}

#[test]
fn already_due_expiry_fires_immediately() {
    let mut m = Moderator::new();
    let out = m.timeout(9, 0, 1_000);
    assert!(out.fired);
    assert_eq!(m.ledger.get(9), None);
}

#[test]
fn timeout_rejects_malformed_user() {
    let mut m = Moderator::new();
    let r = m.timeout_command(b"abc", "10m", 0);
    assert_eq!(r, Err(ModError::MalformedIdentifier));
    let r = m.timeout_command(b"", "10m", 0);
    assert_eq!(r, Err(ModError::MalformedIdentifier));
}

#[test]
fn timeout_rejects_malformed_duration() {
    let mut m = Moderator::new();
    let r = m.timeout_command(b"42", "soon", 0);
    assert_eq!(r, Err(ModError::MalformedDuration));
    assert_eq!(m.ledger.get(42), None);
}

#[test]
fn timeout_rejects_overlong_duration() {
    // Thirteen bytes or more never reach the duration parser.
    let mut m = Moderator::new();
    let r = m.timeout_command(b"42", "1000000000000ms", 0);
    assert_eq!(r, Err(ModError::MalformedDuration));
    // Twelve bytes still parse.
    let out = m.timeout_command(b"42", "999999999s", 0).expect("fits the bound");
    assert_eq!(out.expiry, 999_999_999);
}

#[test]
fn timeout_against_wall_clock() {
    let mut m = Moderator::new();
    let out = m
        .timeout_command_now(b"7", "1h")
        .expect("parsable command");
    // Measured from the real clock: well after 2020, well before the
    // saturation point.
    assert!(out.expiry > 1_577_836_800);
    assert!(!out.fired);
    assert_eq!(m.ledger.get(7), Some(out.expiry));
}

#[test]
fn gate_grants_and_revokes_exactly_once() {
    let mut m = Moderator::new();
    m.post_rules_msg(7, 100);
    assert_eq!(m.member_role(&ack_add(7, 100, 99)), GateAction::Grant);
    assert!(m.caps.has(99));
    // Reacting again grants nothing further.
    assert_eq!(m.member_role(&ack_add(7, 100, 99)), GateAction::Grant);
    assert!(m.caps.has(99));
    assert_eq!(m.member_role(&ack_remove(7, 100, 99)), GateAction::Revoke);
    assert!(!m.caps.has(99));
}

#[test]
fn gate_ignores_other_messages_and_symbols() {
    let mut m = Moderator::new();
    m.post_rules_msg(7, 100);
    // Wrong channel, wrong message, wrong symbol: all ignored.
    assert_eq!(m.member_role(&ack_add(8, 100, 99)), GateAction::Ignore);
    assert_eq!(m.member_role(&ack_add(7, 101, 99)), GateAction::Ignore);
    let other = ReactionEvent { channel: 7, message: 100, emoji: '🎉', user: 99, added: true };
    assert_eq!(m.member_role(&other), GateAction::Ignore);
    assert!(!m.caps.has(99));
}

#[test]
fn gate_inactive_without_pinned_message() {
    let mut m = Moderator::new();
    assert_eq!(m.member_role(&ack_add(7, 100, 99)), GateAction::Ignore);
    assert!(!m.caps.has(99));
}

#[test]
fn suspended_user_never_gains_capability() {
    let mut m = Moderator::new();
    m.post_rules_msg(7, 100);
    m.timeout(99, 600, 1_000);
    assert_eq!(m.member_role(&ack_add(7, 100, 99)), GateAction::Retract);
    assert!(!m.caps.has(99));
    // Removing a reaction while suspended is ignored outright.
    assert_eq!(m.member_role(&ack_remove(7, 100, 99)), GateAction::Ignore);
    assert!(!m.caps.has(99));
}

#[test]
fn timeout_revokes_capability_at_once() {
    let mut m = Moderator::new();
    m.post_rules_msg(7, 100);
    m.member_role(&ack_add(7, 100, 99));
    assert!(m.caps.has(99));
    m.timeout(99, 600, 1_000);
    assert!(!m.caps.has(99));
}

#[test]
fn post_rules_msg_overwrites_pointer() {
    let mut m = Moderator::new();
    m.post_rules_msg(7, 100);
    m.post_rules_msg(7, 200);
    // Only the newest pointer counts.
    assert_eq!(m.member_role(&ack_add(7, 100, 99)), GateAction::Ignore);
    assert_eq!(m.member_role(&ack_add(7, 200, 99)), GateAction::Grant);
}
