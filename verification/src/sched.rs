//! The expiry scheduler: one single-shot timer per active suspension.
//!
//! Each timer is a one-shot signal: the first of "timer elapsed" or
//! "cancel received" wins, and once the release sequence has begun it
//! commits — cancellation is a best-effort pre-empt, never a
//! kill-after-start primitive. The scheduler here is the model of that
//! race: the surrounding process runs one concurrent wait per pending
//! timer and reports back through [`Scheduler::fire`].

use vstd::prelude::*;

verus! {

/// The lifecycle of a single-use timer signal.
#[derive(Clone, Copy, Debug, PartialEq, Eq, Structural)]
pub enum TimerState {
    /// Armed; will run the release sequence unless cancelled first.
    Pending,
    /// The release sequence has won the race and committed.
    Fired,
    /// Cancellation won the race; the release sequence never runs.
    Cancelled,
}

/// One scheduled expiry: the user, the target instant, and the state
/// of the fire-or-cancel race.
#[derive(Clone, Copy, Debug, PartialEq, Eq, Structural)]
pub struct Timer {
    pub user: u64,
    pub fire_at: i64,
    pub state: TimerState,
}

/// `t` with its race decided as `s`.
pub open spec fn with_state(t: Timer, s: TimerState) -> Timer {
    Timer { user: t.user, fire_at: t.fire_at, state: s }
}

/// The expiry scheduler. Its view is the sequence of every timer ever
/// handed out this process lifetime; a handle is an index into it.
/// Settled timers stay as tombstones so that handles stay valid and
/// cancellation stays idempotent.
pub struct Scheduler {
    timers: Vec<Timer>,
}

impl View for Scheduler {
    type V = Seq<Timer>;

    closed spec fn view(&self) -> Seq<Timer> {
        self.timers@
    }
}

impl Scheduler {
    /// Some pending timer belongs to `user`.
    pub open spec fn pending_for(self, user: u64) -> bool {
        exists|i: int|
            0 <= i < self@.len() && self@[i].state is Pending && self@[i].user == user
    }

    /// Some pending timer belongs to `user` and targets `fire_at`.
    pub open spec fn pending_at(self, user: u64, fire_at: i64) -> bool {
        exists|i: int|
            0 <= i < self@.len() && self@[i].state is Pending && self@[i].user == user
                && self@[i].fire_at == fire_at
    }

    /// At most one pending timer per user.
    pub open spec fn wf(self) -> bool {
        forall|i: int, j: int|
            0 <= i < j < self@.len() && self@[i].state is Pending && self@[j].state is Pending
                ==> self@[i].user != self@[j].user
    }

    /// A scheduler with no timers.
    pub fn new() -> (r: Scheduler)
        ensures
            r.wf(),
            r@ == Seq::<Timer>::empty(),
    {
        let r = Scheduler { timers: Vec::new() };
        proof {
            assert(r@ =~= Seq::<Timer>::empty());
        }
        r
    }

    /// How many timers were ever handed out; handles are below this.
    pub fn timer_count(&self) -> (r: usize)
        ensures
            r == self@.len(),
    {
        self.timers.len()
    }

    /// The timer behind a handle.
    pub fn get_timer(&self, handle: usize) -> (r: Timer)
        requires
            handle < self@.len(),
        ensures
            r == self@[handle as int],
    {
        self.timers[handle]
    }

    /// Arms a timer for `user` at `fire_at` and returns its handle,
    /// together with whether the record is already due. An expiry in
    /// the past or now never waits and never errs: it fires at once
    /// (the timer is born settled and the caller runs the release
    /// sequence immediately).
    pub fn schedule(&mut self, user: u64, fire_at: i64, now: i64) -> (r: (usize, bool))
        requires
            old(self).wf(),
            !old(self).pending_for(user),
        ensures
            final(self).wf(),
            r.0 == old(self)@.len(),
            r.1 == (fire_at <= now),
            final(self)@ == old(self)@.push(
                (Timer {
                    user,
                    fire_at,
                    state: if fire_at <= now { TimerState::Fired } else { TimerState::Pending },
                }),
            ),
            !r.1 ==> final(self).pending_at(user, fire_at),
    {
        let handle = self.timers.len();
        let due = fire_at <= now;
        let state = if due {
            TimerState::Fired
        } else {
            TimerState::Pending
        };
        self.timers.push(Timer { user, fire_at, state });
        proof {
            let s0 = old(self)@;
            let s1 = self@;
            assert forall|i: int, j: int|
                0 <= i < j < s1.len() && s1[i].state is Pending
                    && s1[j].state is Pending implies s1[i].user != s1[j].user by {
                if j < s0.len() {
                    assert(s1[i] == s0[i] && s1[j] == s0[j]);
                } else {
                    assert(s1[i] == s0[i]);
                    assert(!(s0[i].state is Pending) || s0[i].user != user);
                }
            }
            if !due {
                assert(s1[s0.len() as int].state is Pending);
            }
        }
        (handle, due)
    }

    /// Cancels the timer behind `handle` if its race is still open.
    /// Idempotent: cancelling a settled or unknown handle changes
    /// nothing.
    pub fn cancel(&mut self, handle: usize)
        requires
            old(self).wf(),
        ensures
            final(self).wf(),
            (handle < old(self)@.len() && old(self)@[handle as int].state is Pending)
                ==> final(self)@ == old(self)@.update(
                    handle as int,
                    with_state(old(self)@[handle as int], TimerState::Cancelled),
                ),
            !(handle < old(self)@.len() && old(self)@[handle as int].state is Pending)
                ==> final(self)@ == old(self)@,
    {
        if handle < self.timers.len() {
            let t = self.timers[handle];
            match t.state {
                TimerState::Pending => {
                    self.timers[handle] = Timer {
                        user: t.user,
                        fire_at: t.fire_at,
                        state: TimerState::Cancelled,
                    };
                },
                _ => {},
            }
        }
        proof {
            if !(handle < old(self)@.len() && old(self)@[handle as int].state is Pending) {
                assert(self@ =~= old(self)@);
            }
        }
    }

    /// Cancels every pending timer of `user` (in a well-formed
    /// scheduler there is at most one). After the call no release can
    /// fire for `user` until a new timer is armed.
    pub fn cancel_user(&mut self, user: u64)
        requires
            old(self).wf(),
        ensures
            final(self).wf(),
            final(self)@.len() == old(self)@.len(),
            forall|i: int|
                0 <= i < old(self)@.len() ==> final(self)@[i] == (
                if old(self)@[i].user == user && old(self)@[i].state is Pending {
                    with_state(old(self)@[i], TimerState::Cancelled)
                } else {
                    old(self)@[i]
                }),
            !final(self).pending_for(user),
    {
        let ghost s0 = self.timers@;
        let mut i: usize = 0;
        while i < self.timers.len()
            invariant
                i <= s0.len(),
                self@.len() == s0.len(),
                forall|j: int|
                    0 <= j < i ==> self@[j] == (
                    if s0[j].user == user && s0[j].state is Pending {
                        with_state(s0[j], TimerState::Cancelled)
                    } else {
                        s0[j]
                    }),
                forall|j: int| i <= j < s0.len() ==> self@[j] == s0[j],
            decreases s0.len() - i,
        {
            let t = self.timers[i];
            if t.user == user {
                match t.state {
                    TimerState::Pending => {
                        self.timers[i] = Timer {
                            user: t.user,
                            fire_at: t.fire_at,
                            state: TimerState::Cancelled,
                        };
                    },
                    _ => {},
                }
            }
            i = i + 1;
        }
        proof {
            let s1 = self@;
            assert forall|a: int, b: int|
                0 <= a < b < s1.len() && s1[a].state is Pending
                    && s1[b].state is Pending implies s1[a].user != s1[b].user by {
                assert(s1[a] == s0[a] || s1[a] == with_state(s0[a], TimerState::Cancelled));
                assert(s1[b] == s0[b] || s1[b] == with_state(s0[b], TimerState::Cancelled));
            }
            assert forall|k: int| 0 <= k < s1.len() implies
                !(s1[k].state is Pending && s1[k].user == user) by {
                if s0[k].user == user && s0[k].state is Pending {
                    assert(s1[k] == with_state(s0[k], TimerState::Cancelled));
                }
            }
        }
    }

    /// The timer behind `handle` reports that its wait elapsed. The
    /// result says whether it won the race: `true` commits the timer
    /// and the caller must run the release sequence exactly once;
    /// `false` means the timer was cancelled first (or the handle is
    /// unknown) and nothing runs.
    pub fn fire(&mut self, handle: usize) -> (r: bool)
        requires
            old(self).wf(),
        ensures
            final(self).wf(),
            r == (handle < old(self)@.len() && old(self)@[handle as int].state is Pending),
            r ==> final(self)@ == old(self)@.update(
                handle as int,
                with_state(old(self)@[handle as int], TimerState::Fired),
            ),
            !r ==> final(self)@ == old(self)@,
            r ==> !final(self).pending_for(old(self)@[handle as int].user),
    {
        let mut won = false;
        if handle < self.timers.len() {
            let t = self.timers[handle];
            match t.state {
                TimerState::Pending => {
                    self.timers[handle] = Timer {
                        user: t.user,
                        fire_at: t.fire_at,
                        state: TimerState::Fired,
                    };
                    won = true;
                },
                _ => {},
            }
        }
        proof {
            let s0 = old(self)@;
            let s1 = self@;
            if won {
                let u = s0[handle as int].user;
                assert forall|k: int| 0 <= k < s1.len() implies
                    !(s1[k].state is Pending && s1[k].user == u) by {
                    if k != handle && s1[k].state is Pending && s1[k].user == u {
                        assert(s0[k].state is Pending && s0[handle as int].state is Pending);
                        if k < handle {
                            assert(s0[k].user != s0[handle as int].user);
                        } else {
                            assert(s0[handle as int].user != s0[k].user);
                        }
                    }
                }
            } else {
                assert(s1 =~= s0);
            }
        }
        won
    }
}

} // verus!
