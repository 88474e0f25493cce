//! Observed-item caches: per-epoch "already seen" records used for
//! duplicate and equivocation rejection.
//!
//! One shape serves them all: a set of `(epoch-like key, validator-like
//! key)` pairs with observe, query and finalization-driven pruning; and a
//! set of single words for operations observed per validator.

use vstd::prelude::*;
use crate::block::AttestationData;

verus! {

/// Outcome of observing an operation: seen for the first time, or a
/// duplicate of an already-observed item.
#[derive(Clone, Copy, PartialEq, Eq, Structural, Debug)]
pub enum ObservationOutcome {
    New,
    AlreadyKnown,
}

/// A set of `(u64, u64)` pairs without duplicates.
pub struct PairSet {
    pub seen: Vec<(u64, u64)>,
}

impl PairSet {
    /// Entries are distinct.
    pub open spec fn wf(self) -> bool {
        forall|k1: int, k2: int|
            0 <= k1 < k2 < self.seen@.len() ==> #[trigger] self.seen@[k1] != #[trigger] self.seen@[k2]
    }

    /// The empty set.
    pub fn new() -> (s: PairSet)
        ensures
            s.wf(),
            s.seen@.len() == 0,
    {
        PairSet { seen: Vec::new() }
    }

    /// Whether the pair was observed.
    pub fn contains(&self, a: u64, b: u64) -> (r: bool)
        ensures
            r == self.seen@.contains((a, b)),
    {
        let mut k: usize = 0;
        while k < self.seen.len()
            invariant
                k <= self.seen@.len(),
                forall|m: int| 0 <= m < k ==> self.seen@[m] != (a, b),
            decreases self.seen@.len() - k,
        {
            if self.seen[k].0 == a && self.seen[k].1 == b {
                proof {
                    assert(self.seen@[k as int] == (a, b));
                }
                return true;
            }
            k = k + 1;
        }
        false
    }

    /// Observe the pair; reports whether it was new. An already-seen exact
    /// item is never double-counted: the set is unchanged.
    pub fn observe(&mut self, a: u64, b: u64) -> (newly: bool)
        requires
            old(self).wf(),
        ensures
            final(self).wf(),
            newly == !old(self).seen@.contains((a, b)),
            final(self).seen@.contains((a, b)),
            forall|p: (u64, u64)|
                p != (a, b) ==> (#[trigger] final(self).seen@.contains(p) == old(
                    self,
                ).seen@.contains(p)),
    {
        if self.contains(a, b) {
            return false;
        }
        let ghost before = self.seen@;
        self.seen.push((a, b));
        proof {
            assert(self.seen@[self.seen@.len() - 1] == (a, b));
            assert(self.seen@.contains((a, b)));
            assert forall|p: (u64, u64)| #[trigger]
                self.seen@.contains(p) implies before.contains(p) || p == (a, b) by {
                let m = choose|m: int| 0 <= m < self.seen@.len() && self.seen@[m] == p;
                if m < before.len() {
                    assert(before[m] == p);
                }
            }
            assert forall|p: (u64, u64)|
                before.contains(p) implies #[trigger] self.seen@.contains(p) by {
                let m = choose|m: int| 0 <= m < before.len() && before[m] == p;
                assert(self.seen@[m] == p);
            }
        }
        true
    }

    /// Drop every pair whose first component is below `min`: pruning at a
    /// finalization boundary.
    pub fn prune_below(&mut self, min: u64)
        requires
            old(self).wf(),
        ensures
            final(self).wf(),
            forall|p: (u64, u64)| #[trigger]
                final(self).seen@.contains(p) == (old(self).seen@.contains(p) && p.0 >= min),
    {
        let mut kept: Vec<(u64, u64)> = Vec::new();
        let mut k: usize = 0;
        while k < self.seen.len()
            invariant
                old(self).wf(),
                self.seen@ == old(self).seen@,
                k <= self.seen@.len(),
                forall|m1: int, m2: int|
                    0 <= m1 < m2 < kept@.len() ==> #[trigger] kept@[m1] != #[trigger] kept@[m2],
                forall|p: (u64, u64)| #[trigger]
                    kept@.contains(p) == (self.seen@.subrange(0, k as int).contains(p) && p.0
                        >= min),
            decreases self.seen@.len() - k,
        {
            let entry = self.seen[k];
            let ghost old_kept = kept@;
            let ghost pre = self.seen@.subrange(0, k as int);
            let ghost cur = self.seen@.subrange(0, k + 1);
            if entry.0 >= min {
                proof {
                    assert forall|m: int|
                        0 <= m < old_kept.len() implies #[trigger] old_kept[m] != entry by {
                        if old_kept[m] == entry {
                            assert(old_kept.contains(old_kept[m]));
                            let o = choose|o: int| 0 <= o < pre.len() && pre[o] == entry;
                            assert(self.seen@[o] == self.seen@[k as int]);
                        }
                    }
                }
                kept.push(entry);
            }
            proof {
                assert(cur.drop_last() == pre);
                assert(cur.last() == self.seen@[k as int]);
                assert forall|p: (u64, u64)| #[trigger]
                    kept@.contains(p) == (cur.contains(p) && p.0 >= min) by {
                    assert forall|q: (u64, u64)| #[trigger]
                        cur.contains(q) implies pre.contains(q) || q == self.seen@[k as int] by {
                        let m = choose|m: int| 0 <= m < cur.len() && cur[m] == q;
                        if m < pre.len() {
                            assert(pre[m] == q);
                        }
                    }
                    assert forall|q: (u64, u64)| pre.contains(q) implies #[trigger] cur.contains(
                        q,
                    ) by {
                        let m = choose|m: int| 0 <= m < pre.len() && pre[m] == q;
                        assert(cur[m] == q);
                    }
                    assert(cur[cur.len() - 1] == self.seen@[k as int]);
                    assert(cur.contains(self.seen@[k as int]));
                    if entry.0 >= min {
                        assert(kept@ == old_kept.push(entry));
                        assert(kept@[kept@.len() - 1] == entry);
                        assert(kept@.contains(entry));
                        assert forall|q: (u64, u64)| #[trigger]
                            kept@.contains(q) implies old_kept.contains(q) || q == entry by {
                            let m = choose|m: int| 0 <= m < kept@.len() && kept@[m] == q;
                            if m < old_kept.len() {
                                assert(old_kept[m] == q);
                            }
                        }
                        assert forall|q: (u64, u64)|
                            old_kept.contains(q) implies #[trigger] kept@.contains(q) by {
                            let m = choose|m: int| 0 <= m < old_kept.len() && old_kept[m] == q;
                            assert(kept@[m] == q);
                        }
                    }
                }
            }
            k = k + 1;
        }
        proof {
            assert(self.seen@.subrange(0, self.seen@.len() as int) == self.seen@);
        }
        self.seen = kept;
    }
}

/// A set of single words without duplicates; used for observed operations
/// keyed by one validator index or one root.
pub struct WordSet {
    pub seen: Vec<u64>,
}

impl WordSet {
    /// Entries are distinct.
    pub open spec fn wf(self) -> bool {
        forall|k1: int, k2: int|
            0 <= k1 < k2 < self.seen@.len() ==> #[trigger] self.seen@[k1] != #[trigger] self.seen@[k2]
    }

    /// The empty set.
    pub fn new() -> (s: WordSet)
        ensures
            s.wf(),
            s.seen@.len() == 0,
    {
        WordSet { seen: Vec::new() }
    }

    /// Whether the word was observed.
    pub fn contains(&self, x: u64) -> (r: bool)
        ensures
            r == self.seen@.contains(x),
    {
        let mut k: usize = 0;
        while k < self.seen.len()
            invariant
                k <= self.seen@.len(),
                forall|m: int| 0 <= m < k ==> self.seen@[m] != x,
            decreases self.seen@.len() - k,
        {
            if self.seen[k] == x {
                return true;
            }
            k = k + 1;
        }
        false
    }

    /// Observe a word: `New` exactly when it was not seen before, and an
    /// already-seen item leaves the set unchanged.
    pub fn verify_and_observe(&mut self, x: u64) -> (outcome: ObservationOutcome)
        requires
            old(self).wf(),
        ensures
            final(self).wf(),
            outcome == if old(self).seen@.contains(x) {
                ObservationOutcome::AlreadyKnown
            } else {
                ObservationOutcome::New
            },
            final(self).seen@.contains(x),
            forall|y: u64|
                y != x ==> (#[trigger] final(self).seen@.contains(y) == old(
                    self,
                ).seen@.contains(y)),
    {
        if self.contains(x) {
            return ObservationOutcome::AlreadyKnown;
        }
        let ghost before = self.seen@;
        self.seen.push(x);
        proof {
            assert(self.seen@[self.seen@.len() - 1] == x);
            assert(self.seen@.contains(x));
            assert forall|y: u64| #[trigger]
                self.seen@.contains(y) implies before.contains(y) || y == x by {
                let m = choose|m: int| 0 <= m < self.seen@.len() && self.seen@[m] == y;
                if m < before.len() {
                    assert(before[m] == y);
                }
            }
            assert forall|y: u64| before.contains(y) implies #[trigger] self.seen@.contains(
                y,
            ) by {
                let m = choose|m: int| 0 <= m < before.len() && before[m] == y;
                assert(self.seen@[m] == y);
            }
        }
        ObservationOutcome::New
    }

    /// Remove a word, if present.
    pub fn remove(&mut self, x: u64)
        requires
            old(self).wf(),
        ensures
            final(self).wf(),
            !final(self).seen@.contains(x),
            forall|y: u64|
                y != x ==> (#[trigger] final(self).seen@.contains(y) == old(
                    self,
                ).seen@.contains(y)),
    {
        let mut kept: Vec<u64> = Vec::new();
        let mut k: usize = 0;
        while k < self.seen.len()
            invariant
                old(self).wf(),
                self.seen@ == old(self).seen@,
                k <= self.seen@.len(),
                forall|m1: int, m2: int|
                    0 <= m1 < m2 < kept@.len() ==> #[trigger] kept@[m1] != #[trigger] kept@[m2],
                forall|y: u64| #[trigger]
                    kept@.contains(y) == (self.seen@.subrange(0, k as int).contains(y) && y != x),
            decreases self.seen@.len() - k,
        {
            let entry = self.seen[k];
            let ghost old_kept = kept@;
            let ghost pre = self.seen@.subrange(0, k as int);
            let ghost cur = self.seen@.subrange(0, k + 1);
            if entry != x {
                proof {
                    assert forall|m: int|
                        0 <= m < old_kept.len() implies #[trigger] old_kept[m] != entry by {
                        if old_kept[m] == entry {
                            assert(old_kept.contains(old_kept[m]));
                            let o = choose|o: int| 0 <= o < pre.len() && pre[o] == entry;
                            assert(self.seen@[o] == self.seen@[k as int]);
                        }
                    }
                }
                kept.push(entry);
            }
            proof {
                assert(cur.drop_last() == pre);
                assert(cur.last() == self.seen@[k as int]);
                assert forall|y: u64| #[trigger]
                    kept@.contains(y) == (cur.contains(y) && y != x) by {
                    assert forall|q: u64| #[trigger]
                        cur.contains(q) implies pre.contains(q) || q == self.seen@[k as int] by {
                        let m = choose|m: int| 0 <= m < cur.len() && cur[m] == q;
                        if m < pre.len() {
                            assert(pre[m] == q);
                        }
                    }
                    assert forall|q: u64| pre.contains(q) implies #[trigger] cur.contains(q) by {
                        let m = choose|m: int| 0 <= m < pre.len() && pre[m] == q;
                        assert(cur[m] == q);
                    }
                    assert(cur[cur.len() - 1] == self.seen@[k as int]);
                    assert(cur.contains(self.seen@[k as int]));
                    if entry != x {
                        assert(kept@ == old_kept.push(entry));
                        assert(kept@[kept@.len() - 1] == entry);
                        assert(kept@.contains(entry));
                        assert forall|q: u64| #[trigger]
                            kept@.contains(q) implies old_kept.contains(q) || q == entry by {
                            let m = choose|m: int| 0 <= m < kept@.len() && kept@[m] == q;
                            if m < old_kept.len() {
                                assert(old_kept[m] == q);
                            }
                        }
                        assert forall|q: u64|
                            old_kept.contains(q) implies #[trigger] kept@.contains(q) by {
                            let m = choose|m: int| 0 <= m < old_kept.len() && old_kept[m] == q;
                            assert(kept@[m] == q);
                        }
                    }
                }
            }
            k = k + 1;
        }
        proof {
            assert(self.seen@.subrange(0, self.seen@.len() as int) == self.seen@);
        }
        self.seen = kept;
    }
}

/// A set of attestation vote contents without duplicates; used to stop
/// re-broadcasting aggregates that were already seen.
pub struct DataSet {
    pub seen: Vec<AttestationData>,
}

impl DataSet {
    /// Entries are distinct.
    pub open spec fn wf(self) -> bool {
        forall|k1: int, k2: int|
            0 <= k1 < k2 < self.seen@.len() ==> #[trigger] self.seen@[k1] != #[trigger] self.seen@[k2]
    }

    /// The empty set.
    pub fn new() -> (s: DataSet)
        ensures
            s.wf(),
            s.seen@.len() == 0,
    {
        DataSet { seen: Vec::new() }
    }

    /// Whether the vote content was observed.
    pub fn contains(&self, d: &AttestationData) -> (r: bool)
        ensures
            r == self.seen@.contains(*d),
    {
        let mut k: usize = 0;
        while k < self.seen.len()
            invariant
                k <= self.seen@.len(),
                forall|m: int| 0 <= m < k ==> self.seen@[m] != *d,
            decreases self.seen@.len() - k,
        {
            if self.seen[k] == *d {
                return true;
            }
            k = k + 1;
        }
        false
    }

    /// Observe a vote content: reports whether it was new, and an
    /// already-seen exact item leaves the set unchanged.
    pub fn observe_item(&mut self, d: &AttestationData) -> (outcome: ObservationOutcome)
        requires
            old(self).wf(),
        ensures
            final(self).wf(),
            outcome == if old(self).seen@.contains(*d) {
                ObservationOutcome::AlreadyKnown
            } else {
                ObservationOutcome::New
            },
            final(self).seen@.contains(*d),
            forall|y: AttestationData|
                y != *d ==> (#[trigger] final(self).seen@.contains(y) == old(
                    self,
                ).seen@.contains(y)),
    {
        if self.contains(d) {
            return ObservationOutcome::AlreadyKnown;
        }
        let ghost before = self.seen@;
        self.seen.push(*d);
        proof {
            assert(self.seen@[self.seen@.len() - 1] == *d);
            assert(self.seen@.contains(*d));
            assert forall|y: AttestationData| #[trigger]
                self.seen@.contains(y) implies before.contains(y) || y == *d by {
                let m = choose|m: int| 0 <= m < self.seen@.len() && self.seen@[m] == y;
                if m < before.len() {
                    assert(before[m] == y);
                }
            }
            assert forall|y: AttestationData|
                before.contains(y) implies #[trigger] self.seen@.contains(y) by {
                let m = choose|m: int| 0 <= m < before.len() && before[m] == y;
                assert(self.seen@[m] == y);
            }
        }
        ObservationOutcome::New
    }
}

} // verus!
