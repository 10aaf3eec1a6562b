//! Admission control: the set of active session handlers, capped at a
//! fixed limit.

use vstd::prelude::*;

verus! {

/// The most session handlers that may be active at once.
pub const MAX_ACTIVE: usize = 10;

/// How long the acceptor sleeps, in milliseconds, before it checks again
/// for room while the active set is full.
pub const POLL_INTERVAL_MS: u64 = 100;

/// The identities of the active handlers, at most `limit` of them.
pub struct Admission {
    active: Vec<u64>,
    limit: usize,
}

impl Admission {
    /// The active handlers, in the order they were admitted.
    pub closed spec fn spec_active(&self) -> Seq<u64> {
        self.active@
    }

    pub closed spec fn spec_limit(&self) -> usize {
        self.limit
    }

    /// No more handlers are active than the limit allows, and none twice.
    pub open spec fn wf(&self) -> bool {
        &&& self.spec_active().len() <= self.spec_limit()
        &&& self.spec_active().no_duplicates()
    }

    /// An empty active set admitting at most `limit` handlers at once.
    pub fn new(limit: usize) -> (a: Admission)
        ensures
            a.wf(),
            a.spec_active() == Seq::<u64>::empty(),
            a.spec_limit() == limit,
    {
        Admission { active: Vec::new(), limit }
    }

    pub fn limit(&self) -> (r: usize)
        ensures
            r == self.spec_limit(),
    {
        self.limit
    }

    /// How many handlers are active.
    pub fn active_count(&self) -> (r: usize)
        ensures
            r == self.spec_active().len(),
    {
        self.active.len()
    }

    /// Whether one more handler may start now.
    pub fn has_room(&self) -> (r: bool)
        ensures
            r == (self.spec_active().len() < self.spec_limit()),
    {
        self.active.len() < self.limit
    }

    /// Admits handler `id` where there is room and `id` is not active
    /// already; otherwise leaves the set as it is. Returns whether `id` was
    /// admitted.
    pub fn enter(&mut self, id: u64) -> (r: bool)
        requires
            old(self).wf(),
        ensures
            final(self).wf(),
            final(self).spec_limit() == old(self).spec_limit(),
            r == (old(self).spec_active().len() < old(self).spec_limit()
                && !old(self).spec_active().contains(id)),
            final(self).spec_active() == if r {
                old(self).spec_active().push(id)
            } else {
                old(self).spec_active()
            },
    {
        if self.active.len() >= self.limit {
            return false;
        }
        let n = self.active.len();
        let mut i: usize = 0;
        while i < n
            invariant
                n == self.active@.len(),
                self.wf(),
                i <= n,
                forall|j: int| 0 <= j < i ==> self.active@[j] != id,
            decreases n - i,
        {
            if self.active[i] == id {
                return false;
            }
            i = i + 1;
        }
        self.active.push(id);
        true
    }

    /// Drops every handler in `finished` from the active set, keeping the
    /// others in their order.
    pub fn prune(&mut self, finished: &Vec<u64>)
        requires
            old(self).wf(),
        ensures
            final(self).wf(),
            final(self).spec_limit() == old(self).spec_limit(),
            final(self).spec_active() == old(self).spec_active().filter(
                |x: u64| !finished@.contains(x),
            ),
    {
        let ghost keep = |x: u64| !finished@.contains(x);
        let ghost before = self.active@;
        let mut kept: Vec<u64> = Vec::new();
        let n = self.active.len();
        let mut i: usize = 0;
        proof {
            assert(before.take(0) =~= Seq::<u64>::empty());
            reveal(Seq::filter);
        }
        while i < n
            invariant
                n == before.len(),
                before.no_duplicates(),
                keep == (|x: u64| !finished@.contains(x)),
                self.active@ == before,
                i <= n,
                kept@ == before.take(i as int).filter(keep),
                kept@.len() <= i,
                kept@.no_duplicates(),
                forall|x: u64| kept@.contains(x) ==> before.take(i as int).contains(x),
            decreases n - i,
        {
            let x = self.active[i];
            let mut drop = false;
            let m = finished.len();
            let mut j: usize = 0;
            while j < m
                invariant
                    m == finished@.len(),
                    j <= m,
                    drop == exists|k: int| 0 <= k < j && finished@[k] == x,
                decreases m - j,
            {
                if finished[j] == x {
                    drop = true;
                }
                j = j + 1;
            }
            proof {
                reveal(Seq::filter);
                assert(before.take(i + 1).drop_last() =~= before.take(i as int));
                assert(before.take(i + 1).last() == x);
                assert(keep(x) == !finished@.contains(x));
                if drop {
                    assert(finished@.contains(x));
                    assert(before.take(i + 1).filter(keep) == before.take(i as int).filter(keep));
                } else {
                    assert(!finished@.contains(x));
                    assert(before.take(i + 1).filter(keep) == before.take(i as int).filter(
                        keep,
                    ).push(x));
                }
                assert forall|y: u64| before.take(i as int).contains(y) implies y != x by {
                    let k = choose|k: int| 0 <= k < i && before.take(i as int)[k] == y;
                    assert(before[k] == y);
                }
            }
            if !drop {
                let ghost prev = kept@;
                kept.push(x);
                proof {
                    assert forall|y: u64| kept@.contains(y) implies before.take(i + 1).contains(
                        y,
                    ) by {
                        let k = choose|k: int| 0 <= k < kept@.len() && kept@[k] == y;
                        if k < prev.len() {
                            assert(prev[k] == y);
                            assert(prev.contains(y));
                            let k2 = choose|k2: int|
                                0 <= k2 < i && before.take(i as int)[k2] == y;
                            assert(before.take(i + 1)[k2] == y);
                        } else {
                            assert(before.take(i + 1)[i as int] == y);
                        }
                    }
                    assert forall|a: int, b: int|
                        0 <= a < kept@.len() && 0 <= b < kept@.len() && a != b implies kept@[a]
                        != kept@[b] by {
                        if a < prev.len() && b == prev.len() {
                            assert(prev.contains(kept@[a]));
                        } else if b < prev.len() && a == prev.len() {
                            assert(prev.contains(kept@[b]));
                        }
                    }
                }
            } else {
                proof {
                    assert forall|y: u64| kept@.contains(y) implies before.take(i + 1).contains(
                        y,
                    ) by {
                        let k2 = choose|k2: int| 0 <= k2 < i && before.take(i as int)[k2] == y;
                        assert(before.take(i + 1)[k2] == y);
                    }
                }
            }
            i = i + 1;
        }
        assert(before.take(n as int) =~= before);
        self.active = kept;
    }
}

} // verus!
