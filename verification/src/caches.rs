//! The cache layer: shuffling/committee cache, attester cache,
//! early-attester cache, proposer cache and block-timing cache.
//!
//! Each cache is an independent, boundedly-sized map. Correctness never
//! depends on a cache being populated: the shuffling cache may only hold
//! what the pure committee computation yields for its key, so a hit and a
//! recomputed miss agree by construction.

use vstd::prelude::*;
use crate::primitives::{Checkpoint, SLOTS_PER_EPOCH, EARLY_ATTESTER_CACHE_HISTORIC_SLOTS, spec_epoch_of, spec_start_slot, copy_u64_vec};
use crate::state::{spec_committee, compute_committee, MAX_SLOT, MAX_VALIDATORS};
use crate::block::{Attestation, AttestationData, BlockSummary};

verus! {

/// Bound on the number of shufflings kept.
pub const SHUFFLING_CACHE_SIZE: usize = 16;

/// Bound on the number of proposer shufflings kept.
pub const PROPOSER_CACHE_SIZE: usize = 16;

/// The committee assignment of one epoch under one decision root: one
/// committee per slot of the epoch.
pub struct Committees {
    pub epoch: u64,
    pub decision_root: u64,
    pub validator_count: u64,
    pub per_slot: Vec<Vec<u64>>,
}

/// The committees an epoch must have under a decision root: for each slot
/// of the epoch, the pure committee computation seeded by the decision
/// root.
pub open spec fn spec_committees_for(epoch: u64, decision_root: u64, validator_count: u64) -> Seq<
    Seq<u64>,
> {
    Seq::new(
        SLOTS_PER_EPOCH as nat,
        |k: int| spec_committee(decision_root, (spec_start_slot(epoch) + k) as u64, validator_count),
    )
}

impl Committees {
    /// The stored lists, as mathematical sequences.
    pub open spec fn view_lists(self) -> Seq<Seq<u64>> {
        self.per_slot@.map_values(|v: Vec<u64>| v@)
    }

    /// The committees are exactly what the pure computation yields.
    pub open spec fn wf(self) -> bool {
        &&& self.view_lists() == spec_committees_for(
            self.epoch,
            self.decision_root,
            self.validator_count,
        )
        &&& self.per_slot@.len() == SLOTS_PER_EPOCH
    }

    /// The committee serving `slot`, which must lie in the epoch.
    pub fn committee_at_slot(&self, slot: u64) -> (c: Vec<u64>)
        requires
            self.wf(),
            spec_epoch_of(slot) == self.epoch,
        ensures
            c@ == spec_committee(self.decision_root, slot, self.validator_count),
    {
        let k = slot % SLOTS_PER_EPOCH;
        proof {
            vstd::arithmetic::div_mod::lemma_fundamental_div_mod(
                slot as int,
                SLOTS_PER_EPOCH as int,
            );
            assert(spec_start_slot(self.epoch) + k == slot);
            assert(self.view_lists()[k as int] == spec_committee(
                self.decision_root,
                slot,
                self.validator_count,
            ));
        }
        copy_u64_vec(&self.per_slot[k as usize])
    }
}

/// Compute the committees of an epoch under a decision root.
pub fn compute_committees(epoch: u64, decision_root: u64, validator_count: u64) -> (c: Committees)
    requires
        validator_count <= MAX_VALIDATORS,
        epoch < MAX_SLOT,
    ensures
        c.wf(),
        c.epoch == epoch,
        c.decision_root == decision_root,
        c.validator_count == validator_count,
{
    let start: u64 = epoch * SLOTS_PER_EPOCH;
    let mut per_slot: Vec<Vec<u64>> = Vec::new();
    let mut k: u64 = 0;
    while k < SLOTS_PER_EPOCH
        invariant
            k <= SLOTS_PER_EPOCH,
            epoch < MAX_SLOT,
            validator_count <= MAX_VALIDATORS,
            start == epoch * SLOTS_PER_EPOCH,
            per_slot@.len() == k,
            forall|m: int|
                0 <= m < k ==> (#[trigger] per_slot@[m])@ == spec_committee(
                    decision_root,
                    (start + m) as u64,
                    validator_count,
                ),
        decreases SLOTS_PER_EPOCH - k,
    {
        per_slot.push(compute_committee(decision_root, start + k, validator_count));
        k = k + 1;
    }
    let c = Committees { epoch, decision_root, validator_count, per_slot };
    proof {
        assert(c.view_lists() =~= spec_committees_for(epoch, decision_root, validator_count));
    }
    c
}

/// Copy a committees value with a known contract.
pub fn copy_committees(c: &Committees) -> (r: Committees)
    ensures
        r.epoch == c.epoch,
        r.decision_root == c.decision_root,
        r.validator_count == c.validator_count,
        r.view_lists() == c.view_lists(),
        c.wf() ==> r.wf(),
{
    let mut per_slot: Vec<Vec<u64>> = Vec::new();
    let mut k: usize = 0;
    while k < c.per_slot.len()
        invariant
            k <= c.per_slot@.len(),
            per_slot@.len() == k,
            forall|m: int| 0 <= m < k ==> (#[trigger] per_slot@[m])@ == c.per_slot@[m]@,
        decreases c.per_slot@.len() - k,
    {
        per_slot.push(copy_u64_vec(&c.per_slot[k]));
        k = k + 1;
    }
    let r = Committees {
        epoch: c.epoch,
        decision_root: c.decision_root,
        validator_count: c.validator_count,
        per_slot,
    };
    proof {
        assert(r.view_lists() =~= c.view_lists());
    }
    r
}

/// Bounded cache from `(epoch, decision root)` to committee assignments.
///
/// Only well-formed committee values can be held, so a cache hit and a
/// recomputed miss for the same key agree.
pub struct ShufflingCache {
    pub entries: Vec<Committees>,
}

impl ShufflingCache {
    /// Every entry is the pure computation's answer for its key; the cache
    /// is bounded.
    pub open spec fn wf(self) -> bool {
        &&& forall|k: int| 0 <= k < self.entries@.len() ==> (#[trigger] self.entries@[k]).wf()
        &&& self.entries@.len() <= SHUFFLING_CACHE_SIZE
    }

    /// An empty cache.
    pub fn new() -> (c: ShufflingCache)
        ensures
            c.wf(),
            c.entries@.len() == 0,
    {
        ShufflingCache { entries: Vec::new() }
    }

    /// Whether the cache holds `(epoch, decision_root)`.
    pub fn contains(&self, epoch: u64, decision_root: u64) -> (r: bool)
        ensures
            r == exists|k: int|
                0 <= k < self.entries@.len() && (#[trigger] self.entries@[k]).epoch == epoch
                    && self.entries@[k].decision_root == decision_root,
    {
        let mut k: usize = 0;
        while k < self.entries.len()
            invariant
                k <= self.entries@.len(),
                forall|m: int|
                    0 <= m < k ==> !((#[trigger] self.entries@[m]).epoch == epoch
                        && self.entries@[m].decision_root == decision_root),
            decreases self.entries@.len() - k,
        {
            if self.entries[k].epoch == epoch && self.entries[k].decision_root == decision_root {
                return true;
            }
            k = k + 1;
        }
        false
    }

    /// The committees cached for `(epoch, decision_root)`, if any. A hit
    /// returns exactly what recomputation would: the entry is well-formed.
    pub fn get(&self, epoch: u64, decision_root: u64) -> (r: Option<Committees>)
        requires
            self.wf(),
        ensures
            match r {
                Some(c) => {
                    &&& c.wf()
                    &&& c.epoch == epoch
                    &&& c.decision_root == decision_root
                    &&& c.view_lists() == spec_committees_for(
                        epoch,
                        decision_root,
                        c.validator_count,
                    )
                },
                None => true,
            },
    {
        let mut k: usize = 0;
        while k < self.entries.len()
            invariant
                self.wf(),
                k <= self.entries@.len(),
            decreases self.entries@.len() - k,
        {
            if self.entries[k].epoch == epoch && self.entries[k].decision_root == decision_root {
                return Some(copy_committees(&self.entries[k]));
            }
            k = k + 1;
        }
        None
    }

    /// Insert a committee assignment, evicting the oldest entry when the
    /// cache is full. Only a well-formed value can enter.
    pub fn insert(&mut self, committees: Committees)
        requires
            old(self).wf(),
            committees.wf(),
        ensures
            final(self).wf(),
            exists|k: int|
                0 <= k < final(self).entries@.len() && (#[trigger] final(self).entries@[k]).epoch
                    == committees.epoch && final(self).entries@[k].decision_root
                    == committees.decision_root,
    {
        if self.entries.len() >= SHUFFLING_CACHE_SIZE {
            let _evicted = self.entries.remove(0);
        }
        self.entries.push(committees);
        proof {
            let n = self.entries@.len() - 1;
            assert(self.entries@[n].epoch == committees.epoch);
        }
    }
}

/// The first cached attestation-production row for a key, scanning front
/// to back.
pub open spec fn spec_attester_lookup(
    entries: Seq<((u64, u64), (Checkpoint, u64))>,
    epoch: u64,
    decision_root: u64,
) -> Option<(Checkpoint, u64)>
    decreases entries.len(),
{
    if entries.len() == 0 {
        None
    } else if entries[0].0 == (epoch, decision_root) {
        Some(entries[0].1)
    } else {
        spec_attester_lookup(entries.drop_first(), epoch, decision_root)
    }
}

/// Cache from `(epoch, decision root)` to the justified checkpoint and
/// committee length needed to attest in that epoch; pruned wholesale below
/// the finalized epoch.
pub struct AttesterCache {
    pub entries: Vec<((u64, u64), (Checkpoint, u64))>,
}

impl AttesterCache {
    /// An empty cache.
    pub fn new() -> (c: AttesterCache)
        ensures
            c.entries@.len() == 0,
    {
        AttesterCache { entries: Vec::new() }
    }

    /// The cached values for a key, if any: the first matching row wins.
    pub fn get(&self, epoch: u64, decision_root: u64) -> (r: Option<(Checkpoint, u64)>)
        ensures
            r == spec_attester_lookup(self.entries@, epoch, decision_root),
            r is Some ==> self.entries@.contains(((epoch, decision_root), r->0)),
    {
        proof {
            assert(self.entries@.skip(0) =~= self.entries@);
        }
        let mut k: usize = 0;
        while k < self.entries.len()
            invariant
                k <= self.entries@.len(),
                spec_attester_lookup(self.entries@, epoch, decision_root)
                    == spec_attester_lookup(
                    self.entries@.skip(k as int),
                    epoch,
                    decision_root,
                ),
            decreases self.entries@.len() - k,
        {
            proof {
                assert(self.entries@.skip(k as int)[0] == self.entries@[k as int]);
                assert(self.entries@.skip(k as int).drop_first() =~= self.entries@.skip(
                    k as int + 1,
                ));
            }
            let e = self.entries[k];
            if e.0.0 == epoch && e.0.1 == decision_root {
                proof {
                    assert(self.entries@[k as int] == ((epoch, decision_root), e.1));
                }
                return Some(e.1);
            }
            k = k + 1;
        }
        proof {
            assert(self.entries@.skip(self.entries@.len() as int) =~= Seq::<
                ((u64, u64), (Checkpoint, u64)),
            >::empty());
        }
        None
    }

    /// Cache the values for a key.
    pub fn insert(&mut self, epoch: u64, decision_root: u64, justified: Checkpoint, committee_len: u64)
        ensures
            final(self).entries@.contains(
                ((epoch, decision_root), (justified, committee_len)),
            ),
            forall|e: ((u64, u64), (Checkpoint, u64))|
                old(self).entries@.contains(e) ==> #[trigger] final(self).entries@.contains(e),
    {
        let ghost before = self.entries@;
        self.entries.push(((epoch, decision_root), (justified, committee_len)));
        proof {
            assert(self.entries@[self.entries@.len() - 1] == ((epoch, decision_root), (
            justified,
            committee_len,
            )));
            assert forall|e: ((u64, u64), (Checkpoint, u64))|
                before.contains(e) implies #[trigger] self.entries@.contains(e) by {
                let m = choose|m: int| 0 <= m < before.len() && before[m] == e;
                assert(self.entries@[m] == e);
            }
        }
    }

    /// Drop every entry below the finalized epoch.
    pub fn prune_below(&mut self, finalized_epoch: u64)
        ensures
            forall|e: ((u64, u64), (Checkpoint, u64))| #[trigger]
                final(self).entries@.contains(e) == (old(self).entries@.contains(e) && (e.0).0
                    >= finalized_epoch),
    {
        let ghost before = self.entries@;
        let mut kept: Vec<((u64, u64), (Checkpoint, u64))> = Vec::new();
        let mut k: usize = 0;
        while k < self.entries.len()
            invariant
                self.entries@ == before,
                k <= before.len(),
                forall|e: ((u64, u64), (Checkpoint, u64))| #[trigger]
                    kept@.contains(e) == (before.subrange(0, k as int).contains(e) && (e.0).0
                        >= finalized_epoch),
            decreases before.len() - k,
        {
            let entry = self.entries[k];
            let ghost old_kept = kept@;
            let ghost pre = before.subrange(0, k as int);
            let ghost cur = before.subrange(0, k + 1);
            if entry.0.0 >= finalized_epoch {
                kept.push(entry);
            }
            proof {
                assert(cur.drop_last() == pre);
                assert(cur.last() == before[k as int]);
                assert forall|e: ((u64, u64), (Checkpoint, u64))| #[trigger]
                    kept@.contains(e) == (cur.contains(e) && (e.0).0 >= finalized_epoch) by {
                    assert forall|q: ((u64, u64), (Checkpoint, u64))| #[trigger]
                        cur.contains(q) implies pre.contains(q) || q == before[k as int] by {
                        let m = choose|m: int| 0 <= m < cur.len() && cur[m] == q;
                        if m < pre.len() {
                            assert(pre[m] == q);
                        }
                    }
                    assert forall|q: ((u64, u64), (Checkpoint, u64))|
                        pre.contains(q) implies #[trigger] cur.contains(q) by {
                        let m = choose|m: int| 0 <= m < pre.len() && pre[m] == q;
                        assert(cur[m] == q);
                    }
                    assert(cur[cur.len() - 1] == before[k as int]);
                    assert(cur.contains(before[k as int]));
                    if entry.0.0 >= finalized_epoch {
                        assert(kept@ == old_kept.push(entry));
                        assert(kept@[kept@.len() - 1] == entry);
                        assert(kept@.contains(entry));
                        assert forall|q: ((u64, u64), (Checkpoint, u64))| #[trigger]
                            kept@.contains(q) implies old_kept.contains(q) || q == entry by {
                            let m = choose|m: int| 0 <= m < kept@.len() && kept@[m] == q;
                            if m < old_kept.len() {
                                assert(old_kept[m] == q);
                            }
                        }
                        assert forall|q: ((u64, u64), (Checkpoint, u64))|
                            old_kept.contains(q) implies #[trigger] kept@.contains(q) by {
                            let m = choose|m: int| 0 <= m < old_kept.len() && old_kept[m] == q;
                            assert(kept@[m] == q);
                        }
                    }
                }
            }
            k = k + 1;
        }
        proof {
            assert(before.subrange(0, before.len() as int) == before);
        }
        self.entries = kept;
    }
}

/// The most recent successfully-imported head's minimal attestable data,
/// so locally-produced attestations do not stall behind database writes.
pub struct EarlyAttesterEntry {
    pub epoch: u64,
    pub source: Checkpoint,
    pub target: Checkpoint,
    pub block: BlockSummary,
    pub committee_decision_root: u64,
    pub validator_count: u64,
}

/// Holds at most one entry; invalidated on every head change and bounded
/// to a few historic slots.
pub struct EarlyAttesterCache {
    pub entry: Option<EarlyAttesterEntry>,
}

impl EarlyAttesterCache {
    /// An empty cache.
    pub fn new() -> (c: EarlyAttesterCache)
        ensures
            c.entry is None,
    {
        EarlyAttesterCache { entry: None }
    }

    /// Remember the pending head block.
    pub fn add_head_block(&mut self, entry: EarlyAttesterEntry)
        ensures
            final(self).entry is Some,
            final(self).entry->0.epoch == entry.epoch,
            final(self).entry->0.source == entry.source,
            final(self).entry->0.target == entry.target,
            final(self).entry->0.block@ == entry.block@,
            final(self).entry->0.committee_decision_root == entry.committee_decision_root,
            final(self).entry->0.validator_count == entry.validator_count,
    {
        self.entry = Some(entry);
    }

    /// Forget the entry; it is only valid relative to the previous head.
    pub fn clear(&mut self)
        ensures
            final(self).entry is None,
    {
        self.entry = None;
    }

    /// Produce an attestation to the pending head, exactly when the
    /// request falls in the entry's epoch and within the historic-slot
    /// bound.
    pub fn try_attest(&self, request_slot: u64, request_index: u64) -> (r: Option<Attestation>)
        ensures
            r is Some <==> (self.entry is Some && spec_epoch_of(request_slot)
                == self.entry->0.epoch && request_slot >= self.entry->0.block.slot
                && self.entry->0.block.slot <= MAX_SLOT && request_slot
                <= self.entry->0.block.slot + EARLY_ATTESTER_CACHE_HISTORIC_SLOTS),
            match r {
                Some(a) => {
                    &&& a.data == (AttestationData {
                        slot: request_slot,
                        index: request_index,
                        beacon_block_root: self.entry->0.block.root,
                        source: self.entry->0.source,
                        target: self.entry->0.target,
                    })
                    &&& a.attesting_indices@.len() == 0
                },
                None => true,
            },
    {
        match &self.entry {
            Some(entry) => {
                if request_slot / SLOTS_PER_EPOCH == entry.epoch && request_slot
                    >= entry.block.slot && entry.block.slot <= MAX_SLOT && request_slot
                    <= entry.block.slot + EARLY_ATTESTER_CACHE_HISTORIC_SLOTS {
                    Some(
                        Attestation {
                            data: AttestationData {
                                slot: request_slot,
                                index: request_index,
                                beacon_block_root: entry.block.root,
                                source: entry.source,
                                target: entry.target,
                            },
                            attesting_indices: Vec::new(),
                        },
                    )
                } else {
                    None
                }
            },
            None => None,
        }
    }

    /// The pending head block, when its root matches.
    pub fn get_block(&self, block_root: u64) -> (r: Option<BlockSummary>)
        ensures
            match r {
                Some(b) => self.entry is Some && self.entry->0.block.root == block_root && b@
                    == self.entry->0.block@,
                None => true,
            },
    {
        match &self.entry {
            Some(entry) => {
                if entry.block.root == block_root {
                    Some(entry.block.duplicate())
                } else {
                    None
                }
            },
            None => None,
        }
    }
}

/// A proposer lookup returned by the proposer cache.
#[derive(Clone, Copy, PartialEq, Eq, Structural, Debug)]
pub struct Proposer {
    pub index: u64,
    pub fork_version: u64,
}

/// The first cached proposer row for a key, scanning front to back.
pub open spec fn spec_proposer_row(
    entries: Seq<((u64, u64), (Vec<u64>, u64))>,
    epoch: u64,
    decision_root: u64,
) -> Option<(Seq<u64>, u64)>
    decreases entries.len(),
{
    if entries.len() == 0 {
        None
    } else if entries[0].0 == (epoch, decision_root) {
        Some(((entries[0].1).0@, (entries[0].1).1))
    } else {
        spec_proposer_row(entries.drop_first(), epoch, decision_root)
    }
}

/// Small cache from `(epoch, decision root)` to the epoch's proposers.
pub struct BeaconProposerCache {
    pub entries: Vec<((u64, u64), (Vec<u64>, u64))>,
}

impl BeaconProposerCache {
    /// Each entry holds one proposer per slot of its epoch.
    pub open spec fn wf(self) -> bool {
        forall|k: int|
            0 <= k < self.entries@.len() ==> ((#[trigger] self.entries@[k]).1).0@.len()
                == SLOTS_PER_EPOCH
    }

    /// An empty cache.
    pub fn new() -> (c: BeaconProposerCache)
        ensures
            c.wf(),
            c.entries@.len() == 0,
    {
        BeaconProposerCache { entries: Vec::new() }
    }

    /// Whether the cache holds `(epoch, decision_root)`.
    pub fn contains(&self, epoch: u64, decision_root: u64) -> (r: bool)
        ensures
            r == exists|k: int|
                0 <= k < self.entries@.len() && (#[trigger] self.entries@[k]).0 == (
                epoch,
                decision_root,
                ),
    {
        let mut k: usize = 0;
        while k < self.entries.len()
            invariant
                k <= self.entries@.len(),
                forall|m: int| 0 <= m < k ==> (#[trigger] self.entries@[m]).0 != (
                epoch,
                decision_root,
                ),
            decreases self.entries@.len() - k,
        {
            if self.entries[k].0.0 == epoch && self.entries[k].0.1 == decision_root {
                proof {
                    assert(self.entries@[k as int].0 == (epoch, decision_root));
                }
                return true;
            }
            k = k + 1;
        }
        false
    }

    /// The cached proposer of `slot` under `decision_root`: the entry of
    /// the first matching cache row, if one is held.
    pub fn get_slot(&self, decision_root: u64, slot: u64) -> (r: Option<Proposer>)
        requires
            self.wf(),
        ensures
            r == match spec_proposer_row(self.entries@, spec_epoch_of(slot), decision_root) {
                Some(row) => Some(
                    Proposer {
                        index: row.0[(slot as int % SLOTS_PER_EPOCH as int)],
                        fork_version: row.1,
                    },
                ),
                None => None::<Proposer>,
            },
    {
        let epoch = slot / SLOTS_PER_EPOCH;
        proof {
            assert(self.entries@.skip(0) =~= self.entries@);
        }
        let mut k: usize = 0;
        while k < self.entries.len()
            invariant
                self.wf(),
                epoch == spec_epoch_of(slot),
                k <= self.entries@.len(),
                spec_proposer_row(self.entries@, epoch, decision_root) == spec_proposer_row(
                    self.entries@.skip(k as int),
                    epoch,
                    decision_root,
                ),
            decreases self.entries@.len() - k,
        {
            proof {
                assert(self.entries@.skip(k as int)[0] == self.entries@[k as int]);
                assert(self.entries@.skip(k as int).drop_first() =~= self.entries@.skip(
                    k as int + 1,
                ));
            }
            if self.entries[k].0.0 == epoch && self.entries[k].0.1 == decision_root {
                proof {
                    assert(self.entries@[k as int].0 == (epoch, decision_root));
                }
                let idx = (slot % SLOTS_PER_EPOCH) as usize;
                return Some(
                    Proposer { index: self.entries[k].1.0[idx], fork_version: self.entries[k].1.1 },
                );
            }
            k = k + 1;
        }
        proof {
            assert(self.entries@.skip(self.entries@.len() as int) =~= Seq::<
                ((u64, u64), (Vec<u64>, u64)),
            >::empty());
        }
        None
    }

    /// Cache the proposers of an epoch, evicting the oldest entry when the
    /// cache is full.
    pub fn insert(&mut self, epoch: u64, decision_root: u64, proposers: Vec<u64>, fork_version: u64)
        requires
            old(self).wf(),
            proposers@.len() == SLOTS_PER_EPOCH,
        ensures
            final(self).wf(),
            exists|k: int|
                0 <= k < final(self).entries@.len() && (#[trigger] final(self).entries@[k]).0 == (
                epoch,
                decision_root,
                ) && (final(self).entries@[k].1).0@ == proposers@
                    && (final(self).entries@[k].1).1 == fork_version,
    {
        if self.entries.len() >= PROPOSER_CACHE_SIZE {
            let _evicted = self.entries.remove(0);
        }
        self.entries.push(((epoch, decision_root), (proposers, fork_version)));
        proof {
            let n = self.entries@.len() - 1;
            assert(self.entries@[n].0 == (epoch, decision_root));
        }
    }
}

/// Recorded timings of one block's journey through the node.
#[derive(Clone, Copy, PartialEq, Eq, Structural, Debug)]
pub struct BlockTimes {
    pub observed: Option<u64>,
    pub imported: Option<u64>,
    pub set_as_head: Option<u64>,
}

/// Instrumentation cache of per-block timings, pruned by slot.
pub struct BlockTimesCache {
    pub entries: Vec<(u64, u64, BlockTimes)>,
}

impl BlockTimesCache {
    /// An empty cache.
    pub fn new() -> (c: BlockTimesCache)
        ensures
            c.entries@.len() == 0,
    {
        BlockTimesCache { entries: Vec::new() }
    }

    /// Index of the entry for a root.
    fn index_of(&self, block_root: u64) -> (r: Option<usize>)
        ensures
            match r {
                Some(k) => k < self.entries@.len() && self.entries@[k as int].0 == block_root,
                None => forall|m: int|
                    0 <= m < self.entries@.len() ==> (#[trigger] self.entries@[m]).0
                        != block_root,
            },
    {
        let mut k: usize = 0;
        while k < self.entries.len()
            invariant
                k <= self.entries@.len(),
                forall|m: int| 0 <= m < k ==> (#[trigger] self.entries@[m]).0 != block_root,
            decreases self.entries@.len() - k,
        {
            if self.entries[k].0 == block_root {
                return Some(k);
            }
            k = k + 1;
        }
        None
    }

    /// Record when a block was imported.
    pub fn set_time_imported(&mut self, block_root: u64, slot: u64, timestamp: u64) {
        match self.index_of(block_root) {
            Some(k) => {
                let mut e = self.entries.remove(k);
                e.2.imported = Some(timestamp);
                self.entries.insert(k, e);
            },
            None => {
                self.entries.push(
                    (
                        block_root,
                        slot,
                        BlockTimes { observed: None, imported: Some(timestamp), set_as_head: None },
                    ),
                );
            },
        }
    }

    /// Record when a block became head.
    pub fn set_time_set_as_head(&mut self, block_root: u64, slot: u64, timestamp: u64) {
        match self.index_of(block_root) {
            Some(k) => {
                let mut e = self.entries.remove(k);
                e.2.set_as_head = Some(timestamp);
                self.entries.insert(k, e);
            },
            None => {
                self.entries.push(
                    (
                        block_root,
                        slot,
                        BlockTimes { observed: None, imported: None, set_as_head: Some(timestamp) },
                    ),
                );
            },
        }
    }

    /// The timings recorded for a block.
    pub fn get_block_delays(&self, block_root: u64) -> (r: BlockTimes)
        ensures
            (forall|m: int|
                0 <= m < self.entries@.len() ==> (#[trigger] self.entries@[m]).0 != block_root)
                ==> r == (BlockTimes { observed: None, imported: None, set_as_head: None }),
    {
        match self.index_of(block_root) {
            Some(k) => self.entries[k].2,
            None => BlockTimes { observed: None, imported: None, set_as_head: None },
        }
    }

    /// Drop entries for slots far enough in the past.
    pub fn prune(&mut self, current_slot: u64)
        ensures
            forall|m: int|
                0 <= m < final(self).entries@.len() ==> (#[trigger] final(self).entries@[m]).1
                    + 64 >= current_slot,
    {
        let mut kept: Vec<(u64, u64, BlockTimes)> = Vec::new();
        let mut k: usize = 0;
        while k < self.entries.len()
            invariant
                k <= self.entries@.len(),
                forall|m: int|
                    0 <= m < kept@.len() ==> (#[trigger] kept@[m]).1 + 64 >= current_slot,
                current_slot >= 0,
            decreases self.entries@.len() - k,
        {
            let e = self.entries[k];
            if e.1 >= current_slot || current_slot - e.1 <= 64 {
                kept.push(e);
            }
            k = k + 1;
        }
        self.entries = kept;
    }
}

/// Two well-formed committee values for the same key agree: a shuffling
/// cache hit and a recomputed miss for the same `(epoch, decision root)`
/// yield identical committee assignments.
pub proof fn lemma_shuffling_deterministic(c1: Committees, c2: Committees)
    requires
        c1.wf(),
        c2.wf(),
        c1.epoch == c2.epoch,
        c1.decision_root == c2.decision_root,
        c1.validator_count == c2.validator_count,
    ensures
        c1.view_lists() == c2.view_lists(),
{
}

} // verus!
