//! The head tracker: the set of all known chain-tip roots with their
//! slots, not only the canonical one.
//!
//! Every successful block import registers its block here and retires the
//! block's parent as a tip; entries are otherwise only removed by pruning
//! tied to finalization.

use vstd::prelude::*;

verus! {

/// Whether the tracked tips include `root`.
pub open spec fn spec_tracks(heads: Seq<(u64, u64)>, root: u64) -> bool {
    exists|k: int| 0 <= k < heads.len() && heads[k].0 == root
}

/// The slot recorded for a tracked root.
pub open spec fn spec_slot_of(heads: Seq<(u64, u64)>, root: u64) -> u64 {
    heads[choose|k: int| 0 <= k < heads.len() && heads[k].0 == root].1
}

/// The set of known chain tips.
pub struct HeadTracker {
    /// `(block root, slot)` of every current tip; roots are distinct.
    pub heads: Vec<(u64, u64)>,
}

impl HeadTracker {
    /// Roots are distinct, so each tip is tracked once.
    pub open spec fn wf(self) -> bool {
        forall|k1: int, k2: int|
            0 <= k1 < k2 < self.heads@.len() ==> #[trigger] self.heads@[k1].0 != #[trigger] self.heads@[k2].0
    }

    /// A tracker with no tips.
    pub fn new() -> (t: HeadTracker)
        ensures
            t.wf(),
            t.heads@.len() == 0,
    {
        HeadTracker { heads: Vec::new() }
    }

    /// Whether `root` is currently a tip.
    pub fn contains_head(&self, root: u64) -> (r: bool)
        ensures
            r == spec_tracks(self.heads@, root),
    {
        let mut k: usize = 0;
        while k < self.heads.len()
            invariant
                k <= self.heads@.len(),
                forall|m: int| 0 <= m < k ==> self.heads@[m].0 != root,
            decreases self.heads@.len() - k,
        {
            if self.heads[k].0 == root {
                return true;
            }
            k = k + 1;
        }
        false
    }

    /// Register an imported block: its parent stops being a tip and the
    /// block becomes one (with its slot refreshed if it already was one).
    pub fn register_block(&mut self, block_root: u64, parent_root: u64, slot: u64)
        requires
            old(self).wf(),
            block_root != parent_root,
        ensures
            final(self).wf(),
            spec_tracks(final(self).heads@, block_root),
            spec_slot_of(final(self).heads@, block_root) == slot,
            !spec_tracks(final(self).heads@, parent_root),
            forall|p: (u64, u64)|
                p.0 != block_root && p.0 != parent_root ==> (#[trigger] final(self).heads@.contains(
                    p,
                ) == old(self).heads@.contains(p)),
    {
        // Drop the parent (retired as a tip) and any stale entry for the
        // block itself.
        let mut kept: Vec<(u64, u64)> = Vec::new();
        let mut k: usize = 0;
        while k < self.heads.len()
            invariant
                old(self).wf(),
                self.heads@ == old(self).heads@,
                k <= self.heads@.len(),
                forall|m: int| #![trigger kept@[m]]
                    0 <= m < kept@.len() ==> kept@[m].0 != parent_root && kept@[m].0
                        != block_root,
                forall|m1: int, m2: int|
                    0 <= m1 < m2 < kept@.len() ==> #[trigger] kept@[m1].0 != #[trigger] kept@[
                        m2].0,
                forall|p: (u64, u64)|
                    p.0 != parent_root && p.0 != block_root ==> (#[trigger] kept@.contains(p)
                        == self.heads@.subrange(0, k as int).contains(p)),
            decreases self.heads@.len() - k,
        {
            let entry = self.heads[k];
            let ghost old_kept = kept@;
            if entry.0 != parent_root && entry.0 != block_root {
                proof {
                    assert forall|m: int|
                        0 <= m < old_kept.len() implies #[trigger] old_kept[m].0 != entry.0 by {
                        assert(old_kept.contains(old_kept[m]));
                        assert(self.heads@.subrange(0, k as int).contains(old_kept[m]));
                        let o = choose|o: int|
                            0 <= o < k && self.heads@.subrange(0, k as int)[o] == old_kept[m];
                        assert(self.heads@[o] == old_kept[m]);
                        if old_kept[m].0 == entry.0 {
                            assert(self.heads@[o].0 == self.heads@[k as int].0);
                        }
                    }
                }
                kept.push(entry);
            }
            proof {
                assert(self.heads@.subrange(0, k + 1).drop_last() == self.heads@.subrange(
                    0,
                    k as int,
                ));
                assert(self.heads@.subrange(0, k + 1).last() == self.heads@[k as int]);
                assert forall|p: (u64, u64)|
                    p.0 != parent_root && p.0 != block_root implies (#[trigger] kept@.contains(
                    p,
                ) == self.heads@.subrange(0, k + 1).contains(p)) by {
                    let pre = self.heads@.subrange(0, k as int);
                    let cur = self.heads@.subrange(0, k + 1);
                    assert forall|q: (u64, u64)| #[trigger]
                        cur.contains(q) implies pre.contains(q) || q == self.heads@[
                        k as int] by {
                        let m = choose|m: int| 0 <= m < cur.len() && cur[m] == q;
                        if m < pre.len() {
                            assert(pre[m] == q);
                        }
                    }
                    assert forall|q: (u64, u64)| pre.contains(q) implies #[trigger] cur.contains(
                        q,
                    ) by {
                        let m = choose|m: int| 0 <= m < pre.len() && pre[m] == q;
                        assert(cur[m] == q);
                    }
                    if entry.0 != parent_root && entry.0 != block_root {
                        assert(kept@ == old_kept.push(entry));
                        assert(kept@[kept@.len() - 1] == entry);
                        assert forall|q: (u64, u64)| #[trigger]
                            kept@.contains(q) implies old_kept.contains(q) || q == entry by {
                            let m = choose|m: int| 0 <= m < kept@.len() && kept@[m] == q;
                            if m < old_kept.len() {
                                assert(old_kept[m] == q);
                            }
                        }
                        assert forall|q: (u64, u64)|
                            old_kept.contains(q) implies #[trigger] kept@.contains(q) by {
                            let m = choose|m: int| 0 <= m < old_kept.len() && old_kept[m] == q;
                            assert(kept@[m] == q);
                        }
                        assert(cur.contains(self.heads@[k as int])) by {
                            assert(cur[cur.len() - 1] == self.heads@[k as int]);
                        }
                        assert(kept@.contains(entry));
                    }
                }
            }
            k = k + 1;
        }
        let ghost before = kept@;
        kept.push((block_root, slot));
        self.heads = kept;
        proof {
            assert(self.heads@.subrange(0, self.heads@.len() - 1) == before);
            assert(self.heads@[self.heads@.len() - 1] == (block_root, slot));
            assert(spec_tracks(self.heads@, block_root));
            assert(old(self).heads@.subrange(0, old(self).heads@.len() as int) == old(
                self,
            ).heads@);
            assert forall|p: (u64, u64)|
                p.0 != block_root && p.0 != parent_root implies (#[trigger] self.heads@.contains(
                p,
            ) == old(self).heads@.contains(p)) by {
                assert forall|q: (u64, u64)| #[trigger]
                    self.heads@.contains(q) implies before.contains(q) || q == (
                block_root,
                slot,
                ) by {
                    let m = choose|m: int|
                        0 <= m < self.heads@.len() && self.heads@[m] == q;
                    if m < before.len() {
                        assert(before[m] == q);
                    }
                }
                assert forall|q: (u64, u64)|
                    before.contains(q) implies #[trigger] self.heads@.contains(q) by {
                    let m = choose|m: int| 0 <= m < before.len() && before[m] == q;
                    assert(self.heads@[m] == q);
                }
            }
            assert(spec_slot_of(self.heads@, block_root) == slot) by {
                let mw = choose|m2: int|
                    0 <= m2 < self.heads@.len() && self.heads@[m2].0 == block_root;
                if mw != self.heads@.len() - 1 {
                    assert(before[mw].0 == block_root);
                }
            }
        }
    }

    /// The current tips as `(root, slot)` pairs.
    pub fn heads(&self) -> (r: Vec<(u64, u64)>)
        ensures
            r@ == self.heads@,
    {
        let mut r: Vec<(u64, u64)> = Vec::new();
        let mut k: usize = 0;
        while k < self.heads.len()
            invariant
                k <= self.heads@.len(),
                r@ == self.heads@.subrange(0, k as int),
            decreases self.heads@.len() - k,
        {
            r.push(self.heads[k]);
            k = k + 1;
        }
        proof {
            assert(self.heads@.subrange(0, self.heads@.len() as int) == self.heads@);
        }
        r
    }
}

} // verus!
