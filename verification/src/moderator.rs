//! The moderation automaton: ledger, scheduler and capability view
//! wired together, with the operations the command layer calls.
//!
//! The invariant that recovery rests on: the scheduler's pending
//! timers are exactly a derived cache of the ledger — every suspended
//! user has one pending timer at the recorded expiry, and every
//! pending timer belongs to a suspended user. The ledger alone is the
//! durable source of truth, so the schedule is always reconstructible
//! from it after a restart.

use vstd::prelude::*;
use crate::caps::CapSet;
use crate::errors::ModError;
use crate::gate::{gate_decision, gate_spec, GateAction, ReactionEvent};
use crate::ledger::{unique_users, Ledger, PinnedAck};
use crate::sched::{with_state, Scheduler, Timer, TimerState};
use crate::timeparse::{human_duration_secs, parse_duration_secs, MAX_DURATION_LEN};
use vstd::string::StringSliceAdditionalSpecFns;
use crate::clock::now_utc;
use crate::codec::parse_user_id;
use crate::codec::parse_user_spec;

verus! {

/// What the timeout command reports back.
#[derive(Clone, Copy, Debug, PartialEq, Eq, Structural)]
pub struct TimeoutOutcome {
    /// The absolute expiry instant written to the ledger.
    pub expiry: i64,
    /// The handle of the timer armed (or settled) for this suspension.
    pub handle: usize,
    /// The record was already due, so the release sequence ran at once
    /// and no wait was started.
    pub fired: bool,
}

/// The expiry a suspension of `duration_secs` starting `now` gets:
/// the sum, saturated at the far end of the timestamp range.
pub open spec fn expiry_after(now: i64, duration_secs: u64) -> i64 {
    if now + duration_secs > i64::MAX {
        i64::MAX
    } else {
        (now + duration_secs) as i64
    }
}

/// `user` appears among the first `bound` of `records` with an expiry
/// not after `now`.
pub open spec fn past_due_user_in(
    records: Seq<(u64, i64)>,
    bound: int,
    now: i64,
    user: u64,
) -> bool {
    exists|k: int| 0 <= k < bound && (#[trigger] records[k]).0 == user && records[k].1 <= now
}

/// `user` appears among `records` with an expiry not after `now`.
pub open spec fn past_due_user(records: Seq<(u64, i64)>, now: i64, user: u64) -> bool {
    past_due_user_in(records, records.len() as int, now, user)
}

/// The moderation automaton.
pub struct Moderator {
    pub ledger: Ledger,
    pub sched: Scheduler,
    pub caps: CapSet,
}

/// Everything the timeout operation promises: the record written (or,
/// for an already-due expiry, released on the spot), the single
/// pending timer, the capability revoked, the pinned pointer left
/// alone.
pub open spec fn timeout_post(
    pre: Moderator,
    post: Moderator,
    user: u64,
    duration_secs: u64,
    now: i64,
    r: TimeoutOutcome,
) -> bool {
    &&& post.wf()
    &&& r.expiry == expiry_after(now, duration_secs)
    &&& r.fired == (r.expiry <= now)
    &&& (!r.fired ==> post.ledger@ == pre.ledger@.insert(user, r.expiry))
    &&& (!r.fired ==> post.sched.pending_at(user, r.expiry))
    &&& (r.fired ==> post.ledger@ == pre.ledger@.remove(user))
    &&& (r.fired ==> !post.sched.pending_for(user))
    &&& post.caps@ == pre.caps@.remove(user)
    &&& post.ledger.pinned_ack() == pre.ledger.pinned_ack()
    &&& r.handle < post.sched@.len()
    &&& post.sched@[r.handle as int] == (Timer {
        user,
        fire_at: r.expiry,
        state: if r.fired {
            TimerState::Fired
        } else {
            TimerState::Pending
        },
    })
}

impl Moderator {
    /// The recovery correctness invariant: pending timers are exactly
    /// the ledger, user for user and expiry for expiry, and each part
    /// is well formed.
    pub open spec fn wf(self) -> bool {
        &&& self.ledger.wf()
        &&& self.sched.wf()
        &&& self.caps.wf()
        &&& forall|u: u64| #[trigger]
            self.ledger@.contains_key(u) ==> self.sched.pending_at(u, self.ledger@[u])
        &&& forall|i: int|
            0 <= i < self.sched@.len() && (#[trigger] self.sched@[i]).state is Pending
                ==> self.ledger@.contains_key(self.sched@[i].user) && self.ledger@[self.sched@[
                i].user] == self.sched@[i].fire_at
    }

    /// A fresh automaton: nobody suspended, no timers, no capability,
    /// no pinned message.
    pub fn new() -> (r: Moderator)
        ensures
            r.wf(),
            r.ledger@ == Map::<u64, i64>::empty(),
            r.ledger.pinned_ack() is None,
            r.sched@ == Seq::<crate::sched::Timer>::empty(),
            r.caps@ == Set::<u64>::empty(),
    {
        Moderator { ledger: Ledger::new(), sched: Scheduler::new(), caps: CapSet::new() }
    }

    /// Writes (or rewrites, release-then-recreate) the suspension of
    /// `user` until `expiry` and arms its timer; an already-due expiry
    /// fires the release sequence immediately instead of waiting.
    fn apply_suspension(&mut self, user: u64, expiry: i64, now: i64) -> (r: (usize, bool))
        requires
            old(self).wf(),
        ensures
            final(self).wf(),
            r.1 == (expiry <= now),
            !r.1 ==> final(self).ledger@ == old(self).ledger@.insert(user, expiry),
            !r.1 ==> final(self).sched.pending_at(user, expiry),
            r.1 ==> final(self).ledger@ == old(self).ledger@.remove(user),
            r.1 ==> !final(self).sched.pending_for(user),
            final(self).caps == old(self).caps,
            final(self).ledger.pinned_ack() == old(self).ledger.pinned_ack(),
            r.0 < final(self).sched@.len(),
            final(self).sched@[r.0 as int] == (Timer {
                user,
                fire_at: expiry,
                state: if r.1 {
                    TimerState::Fired
                } else {
                    TimerState::Pending
                },
            }),
    {
        let ghost l0 = self.ledger@;
        let ghost sc0 = self.sched@;
        self.sched.cancel_user(user);
        let ghost sc1 = self.sched@;
        self.ledger.put(user, expiry);
        let hf = self.sched.schedule(user, expiry, now);
        let ghost sc2 = self.sched@;
        if hf.1 {
            self.ledger.remove(user);
            proof {
                assert(self.ledger@ =~= l0.remove(user));
            }
        }
        proof {
            let lf = self.ledger@;
            assert forall|v: u64| #[trigger] lf.contains_key(v) implies self.sched.pending_at(
                v,
                lf[v],
            ) by {
                if v == user {
                    assert(!hf.1);
                    assert(sc2[sc1.len() as int].state is Pending && sc2[sc1.len() as int].user
                        == user && sc2[sc1.len() as int].fire_at == expiry);
                } else {
                    assert(l0.contains_key(v));
                    assert(old(self).sched.pending_at(v, l0[v]));
                    let i = choose|i: int|
                        0 <= i < sc0.len() && sc0[i].state is Pending && sc0[i].user == v && sc0[
                        i].fire_at == l0[v];
                    assert(sc1[i] == sc0[i]);
                    assert(sc2[i] == sc1[i]);
                    assert(lf[v] == l0[v]);
                }
            }
            assert forall|i: int|
                0 <= i < self.sched@.len() && (#[trigger] self.sched@[i]).state
                    is Pending implies self.ledger@.contains_key(self.sched@[i].user)
                && self.ledger@[self.sched@[i].user] == self.sched@[i].fire_at by {
                if i < sc1.len() {
                    assert(sc2[i] == sc1[i]);
                    assert(sc1[i] == sc0[i]);
                    assert(sc0[i].user != user);
                    assert(l0.contains_key(sc0[i].user) && l0[sc0[i].user] == sc0[i].fire_at);
                } else {
                    assert(!hf.1);
                    assert(sc2[i].user == user && sc2[i].fire_at == expiry);
                }
            }
            if hf.1 {
                assert forall|i: int| 0 <= i < sc2.len() implies !(sc2[i].state is Pending && sc2[
                    i].user == user) by {
                    if i < sc1.len() {
                        assert(sc2[i] == sc1[i]);
                    }
                }
            } else {
                assert(sc2[sc1.len() as int].state is Pending);
            }
        }
        hf
    }

    /// The timeout command's core: suspends `user` for
    /// `duration_secs` seconds from `now` — writes the record, arms
    /// exactly one timer (an already-due expiry releases on the spot),
    /// and revokes the member capability at once. The surrounding
    /// process mirrors the record to the store, flushes, retracts the
    /// user's acknowledgement reaction and notifies them of the expiry.
    pub fn timeout(&mut self, user: u64, duration_secs: u64, now: i64) -> (r: TimeoutOutcome)
        requires
            old(self).wf(),
        ensures
            timeout_post(*old(self), *final(self), user, duration_secs, now, r),
    {
        let expiry = add_secs_saturating(now, duration_secs);
        let hf = self.apply_suspension(user, expiry, now);
        self.caps.revoke(user);
        TimeoutOutcome { expiry, handle: hf.0, fired: hf.1 }
    }

    /// The timeout command as the command layer sees it: parses the
    /// user identifier and the human-written duration, rejecting
    /// either as malformed without touching any state, then suspends.
    /// A duration string longer than [`MAX_DURATION_LEN`] bytes is
    /// rejected as malformed before any parse.
    pub fn timeout_command(&mut self, user_id: &[u8], duration: &str, now: i64) -> (r: Result<
        TimeoutOutcome,
        ModError,
    >)
        requires
            old(self).wf(),
        ensures
            final(self).wf(),
            match parse_user_spec(user_id@) {
                None => r == Err::<TimeoutOutcome, ModError>(ModError::MalformedIdentifier)
                    && *final(self) == *old(self),
                Some(u) => {
                    if duration.spec_bytes().len() > MAX_DURATION_LEN {
                        r == Err::<TimeoutOutcome, ModError>(ModError::MalformedDuration)
                            && *final(self) == *old(self)
                    } else {
                        match human_duration_secs(duration@) {
                            Some(d) => (r matches Ok(out) && timeout_post(
                                *old(self),
                                *final(self),
                                u,
                                d,
                                now,
                                out,
                            )),
                            None => r == Err::<TimeoutOutcome, ModError>(
                                ModError::MalformedDuration,
                            ) && *final(self) == *old(self),
                        }
                    }
                },
            },
    {
        let user = match parse_user_id(user_id) {
            Ok(u) => u,
            Err(e) => {
                return Err(e);
            },
        };
        let duration_bytes: &[u8] = duration.as_bytes();
        if duration_bytes.len() > MAX_DURATION_LEN {
            return Err(ModError::MalformedDuration);
        }
        let secs = match parse_duration_secs(duration) {
            Some(d) => d,
            None => {
                return Err(ModError::MalformedDuration);
            },
        };
        Ok(self.timeout(user, secs, now))
    }

    /// [`Moderator::timeout_command`] against the wall clock, as the
    /// chat command runs it: some reading of the clock is the `now`
    /// the suspension is measured from.
    pub fn timeout_command_now(&mut self, user_id: &[u8], duration: &str) -> (r: Result<
        TimeoutOutcome,
        ModError,
    >)
        requires
            old(self).wf(),
        ensures
            final(self).wf(),
            match parse_user_spec(user_id@) {
                None => r == Err::<TimeoutOutcome, ModError>(ModError::MalformedIdentifier)
                    && *final(self) == *old(self),
                Some(u) => {
                    if duration.spec_bytes().len() > MAX_DURATION_LEN {
                        r == Err::<TimeoutOutcome, ModError>(ModError::MalformedDuration)
                            && *final(self) == *old(self)
                    } else {
                        match human_duration_secs(duration@) {
                            Some(d) => (r matches Ok(out) && exists|now: i64|
                                timeout_post(*old(self), *final(self), u, d, now, out)),
                            None => r == Err::<TimeoutOutcome, ModError>(
                                ModError::MalformedDuration,
                            ) && *final(self) == *old(self),
                        }
                    }
                },
            },
    {
        let now = now_utc();
        self.timeout_command(user_id, duration, now)
    }

    /// Early release: cancels any pending timer of `user` (so the
    /// scheduled release can never run a second time) and removes the
    /// record. Idempotent end to end; releasing a user with no record
    /// is a harmless no-op. The result says whether a record existed.
    /// The surrounding process notifies the user best-effort — a
    /// failed notification never aborts the sequence — and flushes the
    /// store before reporting success.
    pub fn release(&mut self, user: u64) -> (r: bool)
        requires
            old(self).wf(),
        ensures
            final(self).wf(),
            final(self).ledger@ == old(self).ledger@.remove(user),
            !final(self).sched.pending_for(user),
            final(self).sched@.len() == old(self).sched@.len(),
            forall|i: int|
                0 <= i < old(self).sched@.len() ==> final(self).sched@[i] == (
                if old(self).sched@[i].user == user && old(self).sched@[i].state is Pending {
                    with_state(old(self).sched@[i], TimerState::Cancelled)
                } else {
                    old(self).sched@[i]
                }),
            final(self).caps@ == old(self).caps@,
            final(self).ledger.pinned_ack() == old(self).ledger.pinned_ack(),
            r == old(self).ledger@.contains_key(user),
    {
        let ghost l0 = self.ledger@;
        let ghost sc0 = self.sched@;
        self.sched.cancel_user(user);
        let ghost sc1 = self.sched@;
        let r = self.ledger.get(user).is_some();
        self.ledger.remove(user);
        proof {
            assert forall|v: u64| #[trigger] self.ledger@.contains_key(v) implies
                self.sched.pending_at(v, self.ledger@[v]) by {
                assert(l0.contains_key(v) && v != user);
                assert(old(self).sched.pending_at(v, l0[v]));
                let i = choose|i: int|
                    0 <= i < sc0.len() && sc0[i].state is Pending && sc0[i].user == v && sc0[
                    i].fire_at == l0[v];
                assert(sc1[i] == sc0[i]);
            }
            assert forall|i: int|
                0 <= i < self.sched@.len() && (#[trigger] self.sched@[i]).state
                    is Pending implies self.ledger@.contains_key(self.sched@[i].user)
                && self.ledger@[self.sched@[i].user] == self.sched@[i].fire_at by {
                assert(sc1[i] == sc0[i]);
                assert(sc0[i].user != user);
            }
        }
        r
    }

    /// Records the freshly posted rules message as the pinned
    /// acknowledgement message, overwriting any prior pointer. The
    /// surrounding process posts the text, attaches the
    /// acknowledgement symbol, and hands the resulting channel and
    /// message identifiers here.
    pub fn post_rules_msg(&mut self, channel: u64, message: u64)
        requires
            old(self).wf(),
        ensures
            final(self).wf(),
            final(self).ledger.pinned_ack() == Some(PinnedAck { channel, message }),
            final(self).ledger@ == old(self).ledger@,
            final(self).sched == old(self).sched,
            final(self).caps == old(self).caps,
    {
        self.ledger.set_pinned_ack(channel, message);
    }

    /// The reaction handler: decides a reaction event through the
    /// acknowledgement gate and applies the capability change to the
    /// gate's view. The surrounding process mirrors the returned
    /// action onto the platform (grant or revoke the role, retract the
    /// reaction); platform failures there are logged, never rolled
    /// back here.
    pub fn member_role(&mut self, ev: &ReactionEvent) -> (r: GateAction)
        requires
            old(self).wf(),
        ensures
            final(self).wf(),
            r == gate_spec(
                old(self).ledger.pinned_ack(),
                *ev,
                old(self).ledger@.contains_key(ev.user),
            ),
            final(self).ledger == old(self).ledger,
            final(self).sched == old(self).sched,
            r is Grant ==> final(self).caps@ == old(self).caps@.insert(ev.user),
            r is Revoke ==> final(self).caps@ == old(self).caps@.remove(ev.user),
            (!(r is Grant) && !(r is Revoke)) ==> final(self).caps@ == old(self).caps@,
    {
        let suspended = self.ledger.get(ev.user).is_some();
        let pinned = self.ledger.get_pinned_ack();
        let action = gate_decision(pinned, ev, suspended);
        match action {
            GateAction::Grant => self.caps.grant(ev.user),
            GateAction::Revoke => self.caps.revoke(ev.user),
            _ => {},
        }
        action
    }

    /// A timer's wait has elapsed. If the timer still wins its race
    /// (it was not cancelled first), the release sequence runs exactly
    /// once: the record is removed and the returned user must be
    /// notified best-effort by the surrounding process. A cancelled,
    /// settled or unknown handle does nothing.
    pub fn on_timer_fired(&mut self, handle: usize) -> (r: Option<u64>)
        requires
            old(self).wf(),
        ensures
            final(self).wf(),
            r is Some == (handle < old(self).sched@.len() && old(self).sched@[handle as int].state
                is Pending),
            match r {
                Some(u) => {
                    &&& u == old(self).sched@[handle as int].user
                    &&& final(self).ledger@ == old(self).ledger@.remove(u)
                    &&& final(self).sched@ == old(self).sched@.update(
                        handle as int,
                        with_state(old(self).sched@[handle as int], TimerState::Fired),
                    )
                    &&& !final(self).sched.pending_for(u)
                },
                None => {
                    &&& final(self).ledger == old(self).ledger
                    &&& final(self).sched@ == old(self).sched@
                },
            },
            final(self).caps == old(self).caps,
            final(self).ledger.pinned_ack() == old(self).ledger.pinned_ack(),
    {
        let ghost l0 = self.ledger@;
        let ghost sc0 = self.sched@;
        if handle < self.sched.timer_count() {
            let t = self.sched.get_timer(handle);
            let ran = self.sched.fire(handle);
            if ran {
                self.ledger.remove(t.user);
                proof {
                    let sc1 = self.sched@;
                    assert forall|v: u64| #[trigger] self.ledger@.contains_key(v) implies
                        self.sched.pending_at(v, self.ledger@[v]) by {
                        assert(l0.contains_key(v) && v != t.user);
                        assert(old(self).sched.pending_at(v, l0[v]));
                        let i = choose|i: int|
                            0 <= i < sc0.len() && sc0[i].state is Pending && sc0[i].user == v
                                && sc0[i].fire_at == l0[v];
                        assert(i != handle);
                        assert(sc1[i] == sc0[i]);
                    }
                    assert forall|i: int|
                        0 <= i < self.sched@.len() && (#[trigger] self.sched@[i]).state
                            is Pending implies self.ledger@.contains_key(self.sched@[i].user)
                        && self.ledger@[self.sched@[i].user] == self.sched@[i].fire_at by {
                        assert(i != handle);
                        assert(sc1[i] == sc0[i]);
                        assert(sc0[i].user != t.user) by {
                            if i < handle {
                                assert(sc0[i].user != sc0[handle as int].user);
                            } else {
                                assert(sc0[handle as int].user != sc0[i].user);
                            }
                        }
                    }
                }
                return Some(t.user);
            }
        }
        None
    }

    /// The recovery bootstrap. Rebuilds the automaton from the
    /// records read back from the store: every record gets its timer
    /// re-armed at the recorded expiry — already-due records fire
    /// their release immediately, exactly as a live timer would have —
    /// so the pre-restart schedule is restored with no record lost and
    /// none duplicated. The returned list holds the users released on
    /// the spot, for the surrounding process to notify. Runs to
    /// completion before any new command is accepted.
    pub fn load_banned_users(records: &Vec<(u64, i64)>, now: i64) -> (r: (Moderator, Vec<u64>))
        requires
            unique_users(records@),
        ensures
            r.0.wf(),
            forall|k: int|
                0 <= k < records@.len() && records@[k].1 > now ==> r.0.ledger@.contains_key(
                    (#[trigger] records@[k]).0,
                ) && r.0.ledger@[records@[k].0] == records@[k].1,
            forall|k: int|
                0 <= k < records@.len() && records@[k].1 > now ==> r.0.sched.pending_at(
                    (#[trigger] records@[k]).0,
                    records@[k].1,
                ),
            forall|k: int|
                0 <= k < records@.len() && records@[k].1 <= now ==> !r.0.ledger@.contains_key(
                    (#[trigger] records@[k]).0,
                ) && r.1@.contains(records@[k].0),
            forall|u: u64| #[trigger]
                r.0.ledger@.contains_key(u) ==> exists|k: int|
                    0 <= k < records@.len() && (#[trigger] records@[k]).0 == u && records@[k].1
                        == r.0.ledger@[u] && records@[k].1 > now,
            forall|j: int|
                0 <= j < r.1@.len() ==> past_due_user(records@, now, #[trigger] r.1@[j]),
            r.1@.no_duplicates(),
            r.0.caps@ == Set::<u64>::empty(),
            r.0.ledger.pinned_ack() is None,
    {
        let mut m = Moderator::new();
        let mut released: Vec<u64> = Vec::new();
        let mut i: usize = 0;
        while i < records.len()
            invariant
                unique_users(records@),
                i <= records@.len(),
                m.wf(),
                forall|k: int|
                    0 <= k < i && records@[k].1 > now ==> m.ledger@.contains_key(
                        (#[trigger] records@[k]).0,
                    ) && m.ledger@[records@[k].0] == records@[k].1,
                forall|k: int|
                    0 <= k < i && records@[k].1 <= now ==> !m.ledger@.contains_key(
                        (#[trigger] records@[k]).0,
                    ) && released@.contains(records@[k].0),
                forall|u: u64| #[trigger]
                    m.ledger@.contains_key(u) ==> exists|k: int|
                        0 <= k < i && (#[trigger] records@[k]).0 == u && records@[k].1 == m.ledger@[
                        u] && records@[k].1 > now,
                forall|j: int|
                    0 <= j < released@.len() ==> past_due_user_in(
                        records@,
                        i as int,
                        now,
                        #[trigger] released@[j],
                    ),
                released@.no_duplicates(),
                m.caps@ == Set::<u64>::empty(),
                m.ledger.pinned_ack() is None,
            decreases records@.len() - i,
        {
            let rec = records[i];
            let ghost l_pre = m.ledger@;
            let ghost rel_pre = released@;
            let hf = m.apply_suspension(rec.0, rec.1, now);
            if hf.1 {
                released.push(rec.0);
            }
            proof {
                assert forall|k: int|
                    0 <= k < i + 1 && records@[k].1 > now implies m.ledger@.contains_key(
                        (#[trigger] records@[k]).0,
                    ) && m.ledger@[records@[k].0] == records@[k].1 by {
                    if k < i {
                        assert(records@[k].0 != rec.0);
                        assert(l_pre.contains_key(records@[k].0));
                    }
                }
                assert forall|k: int|
                    0 <= k < i + 1 && records@[k].1 <= now implies !m.ledger@.contains_key(
                        (#[trigger] records@[k]).0,
                    ) && released@.contains(records@[k].0) by {
                    if k < i {
                        assert(records@[k].0 != rec.0);
                        assert(rel_pre.contains(records@[k].0));
                        let j = choose|j: int| 0 <= j < rel_pre.len() && rel_pre[j] == records@[
                        k].0;
                        assert(released@[j] == records@[k].0);
                    } else {
                        assert(released@[released@.len() - 1] == rec.0);
                    }
                }
                assert forall|u: u64| #[trigger] m.ledger@.contains_key(u) implies exists|k: int|
                    0 <= k < i + 1 && (#[trigger] records@[k]).0 == u && records@[k].1 == m.ledger@[
                    u] && records@[k].1 > now by {
                    if u != rec.0 {
                        assert(l_pre.contains_key(u));
                    }
                }
                assert forall|j: int| 0 <= j < released@.len() implies past_due_user_in(
                    records@,
                    i + 1,
                    now,
                    released@[j],
                ) by {
                    if j < rel_pre.len() {
                        assert(released@[j] == rel_pre[j]);
                        assert(past_due_user_in(records@, i as int, now, rel_pre[j]));
                        let k = choose|k: int|
                            0 <= k < i && (#[trigger] records@[k]).0 == rel_pre[j] && records@[
                            k].1 <= now;
                        assert(0 <= k < i + 1 && records@[k].0 == released@[j] && records@[k].1
                            <= now);
                    } else {
                        assert(released@[j] == rec.0);
                        assert(records@[i as int].0 == rec.0 && records@[i as int].1 <= now);
                    }
                }
                if hf.1 {
                    assert forall|j: int| 0 <= j < rel_pre.len() implies rel_pre[j] != rec.0 by {
                        assert(past_due_user_in(records@, i as int, now, rel_pre[j]));
                        let k = choose|k: int|
                            0 <= k < i && (#[trigger] records@[k]).0 == rel_pre[j] && records@[
                            k].1 <= now;
                        if rel_pre[j] == rec.0 {
                            assert(records@[k].0 == records@[i as int].0);
                        }
                    }
                    assert forall|a: int, b: int|
                        0 <= a < released@.len() && 0 <= b < released@.len() && a
                            != b implies released@[a] != released@[b] by {
                        if a < rel_pre.len() && b < rel_pre.len() {
                            assert(rel_pre[a] != rel_pre[b]);
                        }
                    }
                }
            }
            i = i + 1;
        }
        proof {
            assert forall|k: int|
                0 <= k < records@.len() && records@[k].1 > now implies m.sched.pending_at(
                    (#[trigger] records@[k]).0,
                    records@[k].1,
                ) by {
                assert(m.ledger@.contains_key(records@[k].0));
            }
            assert forall|j: int| 0 <= j < released@.len() implies past_due_user(
                records@,
                now,
                released@[j],
            ) by {
                assert(past_due_user_in(records@, i as int, now, released@[j]));
            }
        }
        (m, released)
    }
}

/// Saturating sum of an instant and a duration in seconds.
fn add_secs_saturating(now: i64, duration_secs: u64) -> (r: i64)
    ensures
        r == expiry_after(now, duration_secs),
{
    let sum: i128 = now as i128 + duration_secs as i128;
    if sum > i64::MAX as i128 {
        i64::MAX
    } else {
        sum as i64
    }
}

/// A suspension is observable at once: after a timeout of `d` seconds
/// taken at `now`, the ledger's existence check returns exactly
/// `now + d` for that user, and everyone else is untouched. Stated for
/// `d >= 1` with an unsaturated sum: a zero or already-due duration
/// legitimately releases on the spot instead of leaving a record, and
/// a sum past the end of the timestamp range saturates.
pub proof fn lemma_timeout_then_get(
    pre: Moderator,
    post: Moderator,
    user: u64,
    d: u64,
    now: i64,
    out: TimeoutOutcome,
)
    requires
        timeout_post(pre, post, user, d, now, out),
        1 <= d,
        now + d <= i64::MAX,
    ensures
        post.ledger@.contains_key(user),
        post.ledger@[user] == now + d,
        out.expiry == now + d,
        !out.fired,
        forall|v: u64| v != user ==> post.ledger@.contains_key(v) == #[trigger]
            pre.ledger@.contains_key(v),
{
    assert(out.expiry == now + d);
    assert(out.expiry > now);
}

/// An explicit release prevents the scheduled release from running a
/// second time: once no pending timer of the user remains, every timer
/// of that user has lost its race, and the firing path runs the
/// release sequence only for a timer that is still pending.
pub proof fn lemma_released_user_timer_inert(m: Moderator, handle: int, user: u64)
    requires
        !m.sched.pending_for(user),
        0 <= handle < m.sched@.len(),
        m.sched@[handle].user == user,
    ensures
        !(m.sched@[handle].state is Pending),
{
    if m.sched@[handle].state is Pending {
        assert(m.sched.pending_for(user));
    }
}

/// Releasing twice is the same as releasing once: the release
/// sequence's effect on the ledger is removal of the user's record,
/// and removing an already-removed key changes nothing.
pub proof fn lemma_release_idempotent(ledger: Map<u64, i64>, user: u64)
    ensures
        ledger.remove(user).remove(user) == ledger.remove(user),
{
    assert(ledger.remove(user).remove(user) =~= ledger.remove(user));
}

/// Acknowledging grants the capability exactly once: the grant makes
/// the user a member, granting again changes nothing further, and
/// removing the reaction afterwards revokes exactly that membership.
pub proof fn lemma_ack_grant_exactly_once(caps: Set<u64>, user: u64)
    ensures
        caps.insert(user).contains(user),
        caps.insert(user).insert(user) == caps.insert(user),
        !caps.contains(user) ==> caps.insert(user).remove(user) == caps,
{
    assert(caps.insert(user).insert(user) =~= caps.insert(user));
    if !caps.contains(user) {
        assert(caps.insert(user).remove(user) =~= caps);
    }
}

} // verus!
