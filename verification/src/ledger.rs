//! The suspension ledger: the durable source of truth.
//!
//! One record per suspended user (user identifier to absolute expiry
//! timestamp, whole seconds UTC), plus the singleton pointer to the
//! pinned acknowledgement message. Presence of a record is the sole
//! source of truth for "is suspended". The surrounding process mirrors
//! every mutation to its persistent store and flushes before reporting
//! success.

use vstd::prelude::*;
use vstd::map::*;

verus! {

/// The singleton pointer to the pinned acknowledgement message:
/// the channel and message users react to in order to accept the rules.
#[derive(Clone, Copy, Debug, PartialEq, Eq, Structural)]
pub struct PinnedAck {
    pub channel: u64,
    pub message: u64,
}

/// True when no user identifier occurs twice in `s`.
pub open spec fn unique_users(s: Seq<(u64, i64)>) -> bool {
    forall|i: int, j: int| 0 <= i < j < s.len() ==> s[i].0 != s[j].0
}

/// True when some record in `s` belongs to `user`.
pub open spec fn seq_has_user(s: Seq<(u64, i64)>, user: u64) -> bool {
    exists|i: int| 0 <= i < s.len() && s[i].0 == user
}

/// The expiry recorded for `user` in `s` (meaningful when `user` occurs once).
pub open spec fn seq_expiry(s: Seq<(u64, i64)>, user: u64) -> i64 {
    s[choose|i: int| 0 <= i < s.len() && s[i].0 == user].1
}

/// The map described by a record sequence with unique users.
pub open spec fn seq_record_map(s: Seq<(u64, i64)>) -> Map<u64, i64> {
    Map::new(|u: u64| seq_has_user(s, u), |u: u64| seq_expiry(s, u))
}

/// With unique users, the record at index `i` is the one `choose` picks.
proof fn lemma_unique_key_index(s: Seq<(u64, i64)>, i: int, user: u64)
    requires
        unique_users(s),
        0 <= i < s.len(),
        s[i].0 == user,
    ensures
        seq_has_user(s, user),
        seq_expiry(s, user) == s[i].1,
{
    assert(seq_has_user(s, user));
    let k = choose|k: int| 0 <= k < s.len() && s[k].0 == user;
    if k < i {
        assert(s[k].0 != s[i].0);
    } else if i < k {
        assert(s[i].0 != s[k].0);
    }
}

/// The suspension ledger. Its view is a map from user identifier to
/// expiry timestamp; the pinned acknowledgement pointer sits beside it.
pub struct Ledger {
    suspensions: Vec<(u64, i64)>,
    pinned: Option<PinnedAck>,
}

impl View for Ledger {
    type V = Map<u64, i64>;

    closed spec fn view(&self) -> Map<u64, i64> {
        seq_record_map(self.suspensions@)
    }
}

impl Ledger {
    /// The raw record sequence; its order carries no meaning.
    pub closed spec fn records(self) -> Seq<(u64, i64)> {
        self.suspensions@
    }

    /// The pinned acknowledgement pointer; absence deactivates reaction handling.
    pub closed spec fn pinned_ack(self) -> Option<PinnedAck> {
        self.pinned
    }

    /// At most one record per user.
    pub closed spec fn wf(self) -> bool {
        unique_users(self.suspensions@)
    }

    /// An empty ledger: nobody suspended, no pinned message.
    pub fn new() -> (r: Ledger)
        ensures
            r.wf(),
            r@ == Map::<u64, i64>::empty(),
            r.pinned_ack() is None,
    {
        let r = Ledger { suspensions: Vec::new(), pinned: None };
        proof {
            assert(r@ =~= Map::<u64, i64>::empty());
        }
        r
    }

    /// Index of the record of `user`, if one exists.
    fn find(&self, user: u64) -> (r: Option<usize>)
        ensures
            match r {
                Some(i) => i < self.records().len() && self.records()[i as int].0 == user,
                None => !seq_has_user(self.records(), user),
            },
    {
        let mut i: usize = 0;
        while i < self.suspensions.len()
            invariant
                i <= self.suspensions@.len(),
                forall|j: int| 0 <= j < i ==> self.suspensions@[j].0 != user,
            decreases self.suspensions@.len() - i,
        {
            if self.suspensions[i].0 == user {
                return Some(i);
            }
            i = i + 1;
        }
        None
    }

    /// Existence check: the recorded expiry of `user`, absence modeled as `None`.
    pub fn get(&self, user: u64) -> (r: Option<i64>)
        requires
            self.wf(),
        ensures
            r == (if self@.contains_key(user) { Some(self@[user]) } else { None::<i64> }),
    {
        match self.find(user) {
            Some(i) => {
                proof {
                    lemma_unique_key_index(self.suspensions@, i as int, user);
                }
                Some(self.suspensions[i].1)
            },
            None => None,
        }
    }

    /// Deletes the record of `user`; absence is not an error.
    pub fn remove(&mut self, user: u64)
        requires
            old(self).wf(),
        ensures
            final(self).wf(),
            final(self)@ == old(self)@.remove(user),
            final(self).pinned_ack() == old(self).pinned_ack(),
    {
        let ghost s0 = self.suspensions@;
        match self.find(user) {
            Some(i) => {
                self.suspensions.remove(i);
                proof {
                    let s1 = self.suspensions@;
                    assert forall|a: int, b: int| 0 <= a < b < s1.len() implies s1[a].0 != s1[b].0 by {
                        let a0 = if a < i { a } else { a + 1 };
                        let b0 = if b < i { b } else { b + 1 };
                        assert(s1[a] == s0[a0]);
                        assert(s1[b] == s0[b0]);
                    }
                    assert(self@ =~= old(self)@.remove(user)) by {
                        assert forall|v: u64| seq_has_user(s1, v) implies (seq_has_user(s0, v) && v != user) by {
                            let k = choose|k: int| 0 <= k < s1.len() && s1[k].0 == v;
                            let k0 = if k < i { k } else { k + 1 };
                            assert(s0[k0] == s1[k]);
                            if v == user {
                                lemma_unique_key_index(s0, k0, v);
                                assert(s0[i as int].0 == user);
                                if k0 < i {
                                    assert(s0[k0].0 != s0[i as int].0);
                                } else {
                                    assert(s0[i as int].0 != s0[k0].0);
                                }
                            }
                        }
                        assert forall|v: u64| seq_has_user(s0, v) && v != user implies seq_has_user(s1, v) by {
                            let k0 = choose|k: int| 0 <= k < s0.len() && s0[k].0 == v;
                            let k = if k0 < i { k0 } else { k0 - 1 };
                            assert(k0 != i);
                            assert(s1[k] == s0[k0]);
                        }
                        assert forall|v: u64| seq_has_user(s1, v) implies seq_expiry(s1, v) == seq_expiry(s0, v) by {
                            let k = choose|k: int| 0 <= k < s1.len() && s1[k].0 == v;
                            let k0 = if k < i { k } else { k + 1 };
                            assert(s0[k0] == s1[k]);
                            lemma_unique_key_index(s1, k, v);
                            lemma_unique_key_index(s0, k0, v);
                        }
                    }
                }
            },
            None => {
                proof {
                    assert(self@ =~= old(self)@.remove(user));
                }
            },
        }
    }

    /// Inserts or overwrites the record of `user`.
    pub fn put(&mut self, user: u64, expiry: i64)
        requires
            old(self).wf(),
        ensures
            final(self).wf(),
            final(self)@ == old(self)@.insert(user, expiry),
            final(self).pinned_ack() == old(self).pinned_ack(),
    {
        self.remove(user);
        let ghost s1 = self.suspensions@;
        let ghost m1 = self@;
        proof {
            assert(!m1.contains_key(user));
            assert(!seq_has_user(s1, user));
        }
        self.suspensions.push((user, expiry));
        proof {
            let s2 = self.suspensions@;
            assert(s2 == s1.push((user, expiry)));
            assert forall|a: int, b: int| 0 <= a < b < s2.len() implies s2[a].0 != s2[b].0 by {
                if b < s1.len() {
                    assert(s2[a] == s1[a] && s2[b] == s1[b]);
                } else {
                    assert(s2[b].0 == user);
                    assert(s2[a] == s1[a]);
                    assert(!seq_has_user(s1, user));
                }
            }
            assert(seq_has_user(s2, user)) by {
                assert(s2[s1.len() as int].0 == user);
            }
            lemma_unique_key_index(s2, s1.len() as int, user);
            assert_maps_equal!(self@, old(self)@.insert(user, expiry), v => {
                if v == user {
                    assert(self@.contains_key(user) && self@[user] == expiry);
                } else {
                    if seq_has_user(s1, v) {
                        let k = choose|k: int| 0 <= k < s1.len() && s1[k].0 == v;
                        assert(s2[k] == s1[k]);
                        lemma_unique_key_index(s2, k, v);
                        lemma_unique_key_index(s1, k, v);
                        assert(m1.contains_key(v) && m1[v] == seq_expiry(s1, v));
                        assert(self@.contains_key(v) && self@[v] == seq_expiry(s2, v));
                    }
                    if seq_has_user(s2, v) {
                        let k = choose|k: int| 0 <= k < s2.len() && s2[k].0 == v;
                        assert(k != s1.len());
                        assert(s1[k] == s2[k]);
                        assert(seq_has_user(s1, v));
                    }
                    assert(old(self)@.contains_key(v) == m1.contains_key(v));
                }
            });
        }
    }

    /// All records, for the recovery bootstrap. Order is unspecified;
    /// the result lists exactly the ledger's records, one per user.
    pub fn list_all(&self) -> (r: Vec<(u64, i64)>)
        requires
            self.wf(),
        ensures
            r@ == self.records(),
            unique_users(r@),
            forall|k: int| 0 <= k < r@.len() ==>
                self@.contains_key(#[trigger] r@[k].0) && self@[r@[k].0] == r@[k].1,
            forall|u: u64| #[trigger] self@.contains_key(u) ==>
                exists|k: int| 0 <= k < r@.len() && r@[k].0 == u,
    {
        let mut r: Vec<(u64, i64)> = Vec::new();
        let mut i: usize = 0;
        while i < self.suspensions.len()
            invariant
                i <= self.suspensions@.len(),
                r@ == self.suspensions@.take(i as int),
            decreases self.suspensions@.len() - i,
        {
            r.push(self.suspensions[i]);
            i = i + 1;
        }
        proof {
            assert(r@ =~= self.suspensions@);
            assert forall|k: int| 0 <= k < r@.len() implies
                self@.contains_key(#[trigger] r@[k].0) && self@[r@[k].0] == r@[k].1 by {
                lemma_unique_key_index(self.suspensions@, k, r@[k].0);
            }
        }
        r
    }

    /// Records or overwrites the pinned acknowledgement pointer.
    pub fn set_pinned_ack(&mut self, channel: u64, message: u64)
        requires
            old(self).wf(),
        ensures
            final(self).wf(),
            final(self)@ == old(self)@,
            final(self).records() == old(self).records(),
            final(self).pinned_ack() == Some(PinnedAck { channel, message }),
    {
        self.pinned = Some(PinnedAck { channel, message });
    }

    /// Reads the pinned acknowledgement pointer, absence modeled as `None`.
    pub fn get_pinned_ack(&self) -> (r: Option<PinnedAck>)
        ensures
            r == self.pinned_ack(),
    {
        self.pinned
    }
}

} // verus!
