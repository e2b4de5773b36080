//! The fire-or-cancel race on single-use timers.

use modbot::moderator::Moderator;
use modbot::sched::{Scheduler, TimerState};

#[test]
fn schedule_then_fire_wins_once() {
    let mut s = Scheduler::new();
    let (h, due) = s.schedule(42, 1_600, 1_000);
    assert!(!due);
    assert_eq!(s.get_timer(h).state, TimerState::Pending);
    // The wait elapses: the timer wins its race exactly once.
    assert!(s.fire(h));
    assert_eq!(s.get_timer(h).state, TimerState::Fired);
    assert!(!s.fire(h));
}

#[test]
fn cancel_preempts_fire() {
    let mut s = Scheduler::new();
    let (h, _) = s.schedule(42, 1_600, 1_000);
    s.cancel(h);
    assert_eq!(s.get_timer(h).state, TimerState::Cancelled);
    // The wait elapsing afterwards runs nothing.
    assert!(!s.fire(h));
    assert_eq!(s.get_timer(h).state, TimerState::Cancelled);
}

#[test]
fn cancel_is_idempotent_and_never_unsettles() {
    let mut s = Scheduler::new();
    let (h, _) = s.schedule(42, 1_600, 1_000);
    s.cancel(h);
    s.cancel(h);
    assert_eq!(s.get_timer(h).state, TimerState::Cancelled);
    // Cancelling a fired timer is a no-op: firing is authoritative
    // once triggered.
    let (h2, _) = s.schedule(43, 1_700, 1_000);
    assert!(s.fire(h2));
    s.cancel(h2);
    assert_eq!(s.get_timer(h2).state, TimerState::Fired);
    // An unknown handle is a no-op too.
    s.cancel(999);
}

#[test]
fn already_due_schedule_is_born_settled() {
    let mut s = Scheduler::new();
    // An expiry at or before now never waits and never errs.
    let (h, due) = s.schedule(42, 1_000, 1_000);
    assert!(due);
    assert_eq!(s.get_timer(h).state, TimerState::Fired);
    assert!(!s.fire(h));
}

#[test]
fn unknown_handle_never_fires() {
    let mut m = Moderator::new();
    assert_eq!(m.on_timer_fired(7), None);
    let out = m.timeout(42, 600, 1_000);
    assert_eq!(m.on_timer_fired(out.handle + 1), None);
    assert_eq!(m.ledger.get(42), Some(1_600));
}

#[test]
fn retimeout_recreates_the_record() {
    // A second timeout for the same user is release-then-recreate:
    // one record, one live timer, and the old timer can no longer
    // release anyone.
    let mut m = Moderator::new();
    let first = m.timeout(42, 600, 1_000);
    let second = m.timeout(42, 900, 1_000);
    assert_eq!(m.ledger.get(42), Some(1_900));
    assert_eq!(m.on_timer_fired(first.handle), None);
    assert_eq!(m.ledger.get(42), Some(1_900));
    assert_eq!(m.on_timer_fired(second.handle), Some(42));
    assert_eq!(m.ledger.get(42), None);
}
