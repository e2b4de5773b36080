//! The acknowledgement gate's view of the member capability.
//!
//! The chat platform owns the real role assignment; this set is the
//! state the acknowledgement gate intends. A platform grant or revoke
//! can fail, and such failures are logged and never rolled back, so
//! the platform may lag this view — a documented inconsistency window,
//! not an error.

use vstd::prelude::*;
use vstd::set::*;

verus! {

/// The set of users currently granted the member capability.
pub struct CapSet {
    users: Vec<u64>,
}

impl View for CapSet {
    type V = Set<u64>;

    closed spec fn view(&self) -> Set<u64> {
        Set::new(|u: u64| self.users@.contains(u))
    }
}

impl CapSet {
    /// No user is listed twice.
    pub closed spec fn wf(self) -> bool {
        self.users@.no_duplicates()
    }

    /// Nobody holds the capability.
    pub fn new() -> (r: CapSet)
        ensures
            r.wf(),
            r@ == Set::<u64>::empty(),
    {
        let r = CapSet { users: Vec::new() };
        proof {
            assert(r@ =~= Set::<u64>::empty());
        }
        r
    }

    /// Index of `user` in the backing list, if present.
    fn find(&self, user: u64) -> (r: Option<usize>)
        ensures
            match r {
                Some(i) => i < self.users@.len() && self.users@[i as int] == user,
                None => !self.users@.contains(user),
            },
    {
        let mut i: usize = 0;
        while i < self.users.len()
            invariant
                i <= self.users@.len(),
                forall|j: int| 0 <= j < i ==> self.users@[j] != user,
            decreases self.users@.len() - i,
        {
            if self.users[i] == user {
                return Some(i);
            }
            i = i + 1;
        }
        None
    }

    /// Whether `user` holds the capability.
    pub fn has(&self, user: u64) -> (r: bool)
        ensures
            r == self@.contains(user),
    {
        self.find(user).is_some()
    }

    /// Grants the capability; granting it again is a no-op.
    pub fn grant(&mut self, user: u64)
        requires
            old(self).wf(),
        ensures
            final(self).wf(),
            final(self)@ == old(self)@.insert(user),
    {
        match self.find(user) {
            Some(i) => {
                proof {
                    assert(self.users@[i as int] == user);
                    assert(self.users@.contains(user));
                    assert(self@ =~= old(self)@.insert(user));
                }
            },
            None => {
                self.users.push(user);
                proof {
                    let s0 = old(self).users@;
                    let s1 = self.users@;
                    assert forall|v: u64| s1.contains(v) implies (s0.contains(v) || v == user) by {
                        let k = choose|k: int| 0 <= k < s1.len() && s1[k] == v;
                        if k < s0.len() {
                            assert(s0[k] == v);
                        }
                    }
                    assert(s1[s0.len() as int] == user);
                    assert forall|v: u64| s0.contains(v) implies s1.contains(v) by {
                        let k = choose|k: int| 0 <= k < s0.len() && s0[k] == v;
                        assert(s1[k] == v);
                    }
                    assert(self@ =~= old(self)@.insert(user));
                }
            },
        }
    }

    /// Revokes the capability; revoking an absent one is a no-op.
    pub fn revoke(&mut self, user: u64)
        requires
            old(self).wf(),
        ensures
            final(self).wf(),
            final(self)@ == old(self)@.remove(user),
    {
        match self.find(user) {
            Some(i) => {
                self.users.remove(i);
                proof {
                    let s0 = old(self).users@;
                    let s1 = self.users@;
                    assert forall|a: int, b: int| 0 <= a < b < s1.len() implies s1[a] != s1[b] by {
                        let a0 = if a < i { a } else { a + 1 };
                        let b0 = if b < i { b } else { b + 1 };
                        assert(s1[a] == s0[a0] && s1[b] == s0[b0]);
                    }
                    assert forall|v: u64| s1.contains(v) implies (s0.contains(v) && v != user) by {
                        let k = choose|k: int| 0 <= k < s1.len() && s1[k] == v;
                        let k0 = if k < i { k } else { k + 1 };
                        assert(s0[k0] == v);
                        if v == user {
                            assert(s0[i as int] == user);
                            assert(k0 != i);
                        }
                    }
                    assert forall|v: u64| s0.contains(v) && v != user implies s1.contains(v) by {
                        let k0 = choose|k: int| 0 <= k < s0.len() && s0[k] == v;
                        assert(k0 != i);
                        let k = if k0 < i { k0 } else { k0 - 1 };
                        assert(s1[k] == s0[k0]);
                    }
                    assert(self@ =~= old(self)@.remove(user));
                }
            },
            None => {
                proof {
                    assert(self@ =~= old(self)@.remove(user));
                }
            },
        }
    }
}

} // verus!
