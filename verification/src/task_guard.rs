//! Keyed mutual exclusion for path-scoped operations.
//!
//! The table of held keys is the verified core. Checking that a key is
//! free and marking it held happen inside one call on an exclusively
//! borrowed table, so no two waiters can both observe a key free and then
//! both mark it held. Waiting itself belongs to the host's scheduler: a
//! waiter polls the table, takes the token or stays pending, and polls
//! again after the next release; a waiter that gives up has inserted
//! nothing, so abandoning a pending acquire leaves no key behind. The
//! order in which pending waiters of one key win is not specified.
use vstd::prelude::*;

verus! {

/// A structure that helps lock named resources, for example directories or
/// paths that several concurrent operations may touch. A key is in the
/// table exactly while some caller holds the token for it.
pub struct TaskGuard {
    pub held: Vec<String>,
}

impl View for TaskGuard {
    type V = Set<Seq<char>>;

    open spec fn view(&self) -> Set<Seq<char>> {
        Set::new(
            |k: Seq<char>| exists|i: int| 0 <= i < self.held@.len() && self.held@[i]@ == k,
        )
    }
}

/// The token for a held key; handing it back releases the key.
pub struct TaskGuardLock {
    pub key: String,
}

/// A pending acquire of one key, polled against the table until it wins.
pub struct GuardWaiter {
    pub key: String,
}

impl TaskGuard {
    /// The table lists each held key once.
    pub open spec fn wf(self) -> bool {
        forall|i: int, j: int|
            0 <= i < j < self.held@.len() ==> (#[trigger] self.held@[i])@ != (
            #[trigger] self.held@[j])@
    }

    /// A fresh table holds no keys.
    pub fn new() -> (g: TaskGuard)
        ensures
            g@ == Set::<Seq<char>>::empty(),
            g.wf(),
    {
        let g = TaskGuard { held: Vec::new() };
        proof {
            assert(g@ =~= Set::<Seq<char>>::empty());
        }
        g
    }

    /// Begin an acquire of `key`: the waiter suspends until its poll wins.
    pub fn lock(&self, key: String) -> (w: GuardWaiter)
        ensures
            w.key@ == key@,
    {
        GuardWaiter::new(key)
    }

    /// Whether a token for `key` is outstanding.
    #[verifier::loop_isolation(false)]
    pub fn is_held(&self, key: &String) -> (r: bool)
        ensures
            r == self@.contains(key@),
    {
        let n = self.held.len();
        let mut i: usize = 0;
        while i < n
            invariant
                i <= n,
                forall|j: int| 0 <= j < i ==> (#[trigger] self.held@[j])@ != key@,
            decreases n - i,
        {
            if self.held[i] == *key {
                assert(self@.contains(key@));
                return true;
            }
            i += 1;
        }
        false
    }

    /// Hand a token back: its key leaves the table, and a pending acquire
    /// of that key can win its next poll.
    #[verifier::loop_isolation(false)]
    pub fn release(&mut self, lock: TaskGuardLock)
        requires
            old(self).wf(),
        ensures
            final(self).wf(),
            final(self)@ == old(self)@.remove(lock.key@),
    {
        let n = self.held.len();
        let mut i: usize = 0;
        while i < n
            invariant
                i <= n,
                self == old(self),
                forall|j: int| 0 <= j < i ==> (#[trigger] self.held@[j])@ != lock.key@,
            decreases n - i,
        {
            if self.held[i] == lock.key {
                let ghost before = self.held@;
                self.held.remove(i);
                proof {
                    before.remove_ensures(i as int);
                    assert(self@ =~= old(self)@.remove(lock.key@)) by {
                        assert forall|k: Seq<char>| self@.contains(k) implies old(self)@.remove(
                            lock.key@,
                        ).contains(k) by {
                            let a = choose|a: int|
                                0 <= a < self.held@.len() && self.held@[a]@ == k;
                            let b: int = if a < i {
                                a
                            } else {
                                a + 1
                            };
                            assert(before[b]@ == k);
                            assert(k != lock.key@) by {
                                if b != i {
                                    if b < i {
                                        assert(before[b]@ != before[i as int]@);
                                    } else {
                                        assert(before[i as int]@ != before[b]@);
                                    }
                                }
                            }
                        }
                        assert forall|k: Seq<char>|
                            old(self)@.remove(lock.key@).contains(k) implies self@.contains(
                            k,
                        ) by {
                            let a = choose|a: int| 0 <= a < before.len() && before[a]@ == k;
                            if a < i {
                                assert(self.held@[a]@ == k);
                            } else {
                                assert(a != i);
                                assert(self.held@[a - 1]@ == k);
                            }
                        }
                    }
                    assert(self.wf()) by {
                        assert forall|a: int, b: int|
                            0 <= a < b < self.held@.len() implies (#[trigger] self.held@[a])@ != (
                            #[trigger] self.held@[b])@ by {
                            let a0: int = if a < i {
                                a
                            } else {
                                a + 1
                            };
                            let b0: int = if b < i {
                                b
                            } else {
                                b + 1
                            };
                            assert(before[a0]@ != before[b0]@);
                        }
                    }
                }
                return ;
            }
            i += 1;
        }
        proof {
            assert(!old(self)@.contains(lock.key@));
            assert(self@ =~= old(self)@.remove(lock.key@));
        }
    }
}

impl GuardWaiter {
    /// A waiter for one key.
    pub fn new(key: String) -> (w: GuardWaiter)
        ensures
            w.key@ == key@,
    {
        GuardWaiter { key }
    }

    /// One poll of the pending acquire. Checking that the key is free and
    /// marking it held happen in this one call on the exclusively borrowed
    /// table: a waiter either takes the token or leaves the table exactly
    /// as it was, so abandoning the wait leaves no key behind.
    pub fn poll(&self, guard: &mut TaskGuard) -> (r: Option<TaskGuardLock>)
        requires
            old(guard).wf(),
        ensures
            final(guard).wf(),
            old(guard)@.contains(self.key@) ==> r is None && *final(guard) == *old(guard),
            !old(guard)@.contains(self.key@) ==> (r matches Some(l) && l.key@ == self.key@
                && final(guard)@ == old(guard)@.insert(self.key@)),
    {
        if guard.is_held(&self.key) {
            None
        } else {
            let k = self.key.clone();
            guard.held.push(k);
            proof {
                assert(guard@ =~= old(guard)@.insert(self.key@)) by {
                    assert(guard.held@[guard.held@.len() - 1]@ == self.key@);
                    assert forall|k2: Seq<char>| old(guard)@.insert(self.key@).contains(
                        k2,
                    ) implies guard@.contains(k2) by {
                        if k2 == self.key@ {
                            assert(guard.held@[guard.held@.len() - 1]@ == k2);
                        } else {
                            let a = choose|a: int|
                                0 <= a < old(guard).held@.len() && old(guard).held@[a]@ == k2;
                            assert(guard.held@[a]@ == k2);
                        }
                    }
                }
                assert(guard.wf()) by {
                    assert forall|i: int, j: int|
                        0 <= i < j < guard.held@.len() implies (#[trigger] guard.held@[i])@ != (
                        #[trigger] guard.held@[j])@ by {
                        if j == guard.held@.len() - 1 {
                            assert(!old(guard)@.contains(self.key@));
                            assert(old(guard).held@[i]@ != self.key@);
                        }
                    }
                }
            }
            Some(TaskGuardLock { key: self.key.clone() })
        }
    }
}

/// Mutual exclusion: as long as the token for a key is outstanding, the
/// key stays in the table, so a second acquire of the same key polled in
/// the meantime stays pending — two tokens for one key never coexist.
pub proof fn lemma_mutual_exclusion(held: Set<Seq<char>>, key: Seq<char>)
    ensures
        held.insert(key).contains(key),
{
}

/// Releasing the token for a key frees it: an acquire of that key polled
/// after the release wins.
pub proof fn lemma_release_unblocks(held: Set<Seq<char>>, key: Seq<char>)
    ensures
        !held.remove(key).contains(key),
{
}

/// Acquires of two different keys never block each other: holding or
/// releasing one key does not change whether the other is free.
pub proof fn lemma_independent_keys(held: Set<Seq<char>>, k1: Seq<char>, k2: Seq<char>)
    requires
        k1 != k2,
    ensures
        held.insert(k1).contains(k2) == held.contains(k2),
        held.remove(k1).contains(k2) == held.contains(k2),
{
}

/// The two-task scenario spelt out: while some task holds the token for
/// one key, a waiter for a different key — itself free, as mutual
/// exclusion is per key only — finds its key free, so by `poll`'s
/// contract its next poll wins. Without the second key being free the
/// claim would fail: its own holder, not the first key, would block it.
pub proof fn lemma_other_key_stays_free(held: Set<Seq<char>>, k1: Seq<char>, k2: Seq<char>)
    requires
        k1 != k2,
        !held.contains(k2),
    ensures
        !held.insert(k1).contains(k2),
{
}

} // verus!
