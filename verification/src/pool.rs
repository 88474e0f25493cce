//! Naive aggregation pools: accumulate one-signer votes keyed by their
//! content and hand out the aggregate on demand.
//!
//! A stale vote is refused with `SlotTooLow`, which callers treat as an
//! early return rather than an error; an exact duplicate is never counted
//! twice. Every slot the pool discards entries older than a fixed
//! look-back window.

use vstd::prelude::*;
use crate::block::{Attestation, AttestationData, atts_abs, lemma_atts_abs_push};
use crate::primitives::copy_u64_vec;

verus! {

/// How many slots of entries a pool retains.
pub const POOL_SLOTS_RETAINED: u64 = 32;

/// Outcome of inserting a one-signer vote.
#[derive(Clone, Copy, PartialEq, Eq, Structural, Debug)]
pub enum InsertOutcome {
    /// The vote content was not yet tracked; a new entry was created.
    NewItemInserted,
    /// The signer was added to an existing entry.
    SignatureAggregated,
    /// The exact signer was already present; nothing changed.
    SignatureAlreadyKnown,
}

/// Typed refusal of an insertion.
#[derive(Clone, Copy, PartialEq, Eq, Structural, Debug)]
pub enum PoolError {
    /// The vote is older than the pool's look-back window.
    SlotTooLow { slot: u64, lowest_permissible_slot: u64 },
    /// The vote does not carry exactly one signer.
    NotExactlyOneSigner { signers: u64 },
}

/// The key of a sync-committee contribution.
#[derive(Clone, Copy, PartialEq, Eq, Structural, Debug)]
pub struct SyncContributionData {
    pub slot: u64,
    pub beacon_block_root: u64,
    pub subcommittee_index: u64,
}

/// The signers stored for a vote content, if tracked.
pub open spec fn spec_att_signers(entries: Seq<(AttestationData, Vec<u64>)>, data: AttestationData) -> Option<
    Seq<u64>,
> {
    if exists|k: int| 0 <= k < entries.len() && entries[k].0 == data {
        Some(entries[choose|k: int| 0 <= k < entries.len() && entries[k].0 == data].1@)
    } else {
        None
    }
}

/// A pool of attestations under the naive aggregation strategy.
pub struct NaiveAggregationPool {
    /// Vote content and the distinct validators that signed it.
    pub entries: Vec<(AttestationData, Vec<u64>)>,
    /// Votes below this slot are refused.
    pub lowest_permissible_slot: u64,
}

impl NaiveAggregationPool {
    /// Keys are distinct and each entry's signers are distinct.
    pub open spec fn wf(self) -> bool {
        &&& forall|k1: int, k2: int|
            0 <= k1 < k2 < self.entries@.len() ==> #[trigger] self.entries@[k1].0
                != #[trigger] self.entries@[k2].0
        &&& forall|k: int|
            0 <= k < self.entries@.len() ==> (forall|i1: int, i2: int|
                0 <= i1 < i2 < (#[trigger] self.entries@[k]).1@.len()
                    ==> #[trigger] self.entries@[k].1@[i1] != #[trigger] self.entries@[k].1@[i2])
    }

    /// An empty pool.
    pub fn new() -> (p: NaiveAggregationPool)
        ensures
            p.wf(),
            p.entries@.len() == 0,
            p.lowest_permissible_slot == 0,
    {
        NaiveAggregationPool { entries: Vec::new(), lowest_permissible_slot: 0 }
    }

    /// Index of the entry for `data`, if tracked.
    fn index_of(&self, data: &AttestationData) -> (r: Option<usize>)
        ensures
            match r {
                Some(k) => k < self.entries@.len() && self.entries@[k as int].0 == *data,
                None => forall|k: int|
                    0 <= k < self.entries@.len() ==> (#[trigger] self.entries@[k]).0 != *data,
            },
    {
        let mut k: usize = 0;
        while k < self.entries.len()
            invariant
                k <= self.entries@.len(),
                forall|m: int| 0 <= m < k ==> (#[trigger] self.entries@[m]).0 != *data,
            decreases self.entries@.len() - k,
        {
            if self.entries[k].0 == *data {
                return Some(k);
            }
            k = k + 1;
        }
        None
    }

    /// Insert a one-signer vote.
    ///
    /// Returns `SlotTooLow` for a vote below the look-back window — an
    /// early return, not a failure of the pool. A vote for new content
    /// opens an entry; a new signer joins the existing entry; an exact
    /// duplicate changes nothing.
    pub fn insert(&mut self, attestation: &Attestation) -> (r: Result<InsertOutcome, PoolError>)
        requires
            old(self).wf(),
        ensures
            final(self).wf(),
            final(self).lowest_permissible_slot == old(self).lowest_permissible_slot,
            match r {
                Ok(outcome) => {
                    &&& attestation.attesting_indices@.len() == 1
                    &&& attestation.data.slot >= old(self).lowest_permissible_slot
                    &&& {
                        let signer = attestation.attesting_indices@[0];
                        let before = spec_att_signers(old(self).entries@, attestation.data);
                        let after = spec_att_signers(final(self).entries@, attestation.data);
                        match outcome {
                            InsertOutcome::NewItemInserted => before is None && after == Some(
                                seq![signer],
                            ),
                            InsertOutcome::SignatureAggregated => before is Some
                                && !before->0.contains(signer) && after == Some(
                                before->0.push(signer),
                            ),
                            InsertOutcome::SignatureAlreadyKnown => before is Some
                                && before->0.contains(signer) && final(self).entries@ == old(
                                self,
                            ).entries@,
                        }
                    }
                    &&& forall|d: AttestationData|
                        d != attestation.data ==> #[trigger] spec_att_signers(
                            final(self).entries@,
                            d,
                        ) == spec_att_signers(old(self).entries@, d)
                },
                Err(PoolError::SlotTooLow { slot, lowest_permissible_slot }) => {
                    &&& slot == attestation.data.slot
                    &&& lowest_permissible_slot == old(self).lowest_permissible_slot
                    &&& attestation.data.slot < old(self).lowest_permissible_slot
                    &&& attestation.attesting_indices@.len() == 1
                    &&& final(self).entries@ == old(self).entries@
                },
                Err(PoolError::NotExactlyOneSigner { signers }) => {
                    &&& signers == attestation.attesting_indices@.len()
                    &&& attestation.attesting_indices@.len() != 1
                    &&& final(self).entries@ == old(self).entries@
                },
            },
    {
        if attestation.attesting_indices.len() != 1 {
            return Err(
                PoolError::NotExactlyOneSigner {
                    signers: attestation.attesting_indices.len() as u64,
                },
            );
        }
        if attestation.data.slot < self.lowest_permissible_slot {
            return Err(
                PoolError::SlotTooLow {
                    slot: attestation.data.slot,
                    lowest_permissible_slot: self.lowest_permissible_slot,
                },
            );
        }
        let signer = attestation.attesting_indices[0];
        let ghost before_entries = self.entries@;
        match self.index_of(&attestation.data) {
            None => {
                let mut signers: Vec<u64> = Vec::new();
                signers.push(signer);
                self.entries.push((attestation.data, signers));
                proof {
                    let n = self.entries@.len() - 1;
                    assert(self.entries@[n] == (attestation.data, self.entries@[n].1));
                    assert(self.entries@[n].0 == attestation.data);
                    assert(self.entries@[n].1@ == seq![signer]);
                    assert(spec_att_signers(self.entries@, attestation.data) == Some(
                        seq![signer],
                    )) by {
                        let kw = choose|k: int|
                            0 <= k < self.entries@.len() && self.entries@[k].0
                                == attestation.data;
                        if kw != n {
                            assert(before_entries[kw].0 == attestation.data);
                        }
                    }
                    assert forall|d: AttestationData|
                        d != attestation.data implies #[trigger] spec_att_signers(
                        self.entries@,
                        d,
                    ) == spec_att_signers(before_entries, d) by {
                        if exists|k: int|
                            0 <= k < self.entries@.len() && self.entries@[k].0 == d {
                            let kw = choose|k: int|
                                0 <= k < self.entries@.len() && self.entries@[k].0 == d;
                            assert(kw != n);
                            assert(before_entries[kw].0 == d);
                            let ko = choose|k: int|
                                0 <= k < before_entries.len() && before_entries[k].0 == d;
                            if ko != kw {
                                assert(before_entries[ko].0 == before_entries[kw].0);
                            }
                        } else {
                            if exists|k: int|
                                0 <= k < before_entries.len() && before_entries[k].0 == d {
                                let ko = choose|k: int|
                                    0 <= k < before_entries.len() && before_entries[k].0 == d;
                                assert(self.entries@[ko].0 == d);
                            }
                        }
                    }
                }
                Ok(InsertOutcome::NewItemInserted)
            },
            Some(k) => {
                // Check whether this exact signer is already aggregated.
                let entry_len = self.entries[k].1.len();
                let mut i: usize = 0;
                let mut known = false;
                while i < entry_len
                    invariant_except_break
                        known == exists|m: int|
                            0 <= m < i && self.entries@[k as int].1@[m] == signer,
                    invariant
                        old(self).wf(),
                        self.entries@ == before_entries,
                        k < self.entries@.len(),
                        entry_len == self.entries@[k as int].1@.len(),
                        i <= entry_len,
                    ensures
                        known == self.entries@[k as int].1@.contains(signer),
                    decreases entry_len - i,
                {
                    if self.entries[k].1[i] == signer {
                        known = true;
                        proof {
                            assert(self.entries@[k as int].1@[i as int] == signer);
                        }
                        break ;
                    }
                    i = i + 1;
                }
                proof {
                    assert(known == self.entries@[k as int].1@.contains(signer));
                    assert(spec_att_signers(self.entries@, attestation.data) == Some(
                        self.entries@[k as int].1@,
                    )) by {
                        let kw = choose|m: int|
                            0 <= m < self.entries@.len() && self.entries@[m].0
                                == attestation.data;
                        if kw != k {
                            assert(self.entries@[kw].0 == self.entries@[k as int].0);
                        }
                    }
                }
                if known {
                    return Ok(InsertOutcome::SignatureAlreadyKnown);
                }
                // Add the signer to the entry, replacing it in place.
                let mut taken = self.entries.remove(k);
                taken.1.push(signer);
                let ghost new_signers = taken.1@;
                self.entries.insert(k, taken);
                proof {
                    assert(self.entries@ == before_entries.remove(k as int).insert(
                        k as int,
                        (attestation.data, self.entries@[k as int].1),
                    ));
                    assert(self.entries@.len() == before_entries.len());
                    assert forall|m: int|
                        0 <= m < self.entries@.len() && m != k implies #[trigger] self.entries@[m]
                        == before_entries[m] by {
                        if m < k {
                            assert(before_entries.remove(k as int)[m] == before_entries[m]);
                        } else {
                            assert(before_entries.remove(k as int)[m - 1] == before_entries[m]);
                        }
                    }
                    assert(self.entries@[k as int].0 == attestation.data);
                    assert(self.entries@[k as int].1@ == before_entries[k as int].1@.push(
                        signer,
                    ));
                    assert(spec_att_signers(self.entries@, attestation.data) == Some(
                        before_entries[k as int].1@.push(signer),
                    )) by {
                        let kw = choose|m: int|
                            0 <= m < self.entries@.len() && self.entries@[m].0
                                == attestation.data;
                        if kw != k {
                            assert(self.entries@[kw] == before_entries[kw]);
                            assert(before_entries[kw].0 == before_entries[k as int].0);
                        }
                    }
                    assert forall|d: AttestationData|
                        d != attestation.data implies #[trigger] spec_att_signers(
                        self.entries@,
                        d,
                    ) == spec_att_signers(before_entries, d) by {
                        if exists|m: int|
                            0 <= m < self.entries@.len() && self.entries@[m].0 == d {
                            let kw = choose|m: int|
                                0 <= m < self.entries@.len() && self.entries@[m].0 == d;
                            assert(kw != k);
                            assert(self.entries@[kw] == before_entries[kw]);
                            let ko = choose|m: int|
                                0 <= m < before_entries.len() && before_entries[m].0 == d;
                            if ko != kw {
                                assert(before_entries[ko].0 == before_entries[kw].0);
                            }
                        } else {
                            if exists|m: int|
                                0 <= m < before_entries.len() && before_entries[m].0 == d {
                                let ko = choose|m: int|
                                    0 <= m < before_entries.len() && before_entries[m].0 == d;
                                assert(ko != k);
                                assert(self.entries@[ko].0 == d);
                            }
                        }
                    }
                }
                Ok(InsertOutcome::SignatureAggregated)
            },
        }
    }

    /// The aggregate for `data`, if any vote content matches.
    pub fn get(&self, data: &AttestationData) -> (r: Option<Attestation>)
        requires
            self.wf(),
        ensures
            match r {
                Some(a) => {
                    &&& spec_att_signers(self.entries@, *data) is Some
                    &&& a.data == *data
                    &&& a.attesting_indices@ == spec_att_signers(self.entries@, *data)->0
                },
                None => spec_att_signers(self.entries@, *data) is None,
            },
    {
        match self.index_of(data) {
            Some(k) => {
                proof {
                    let kw = choose|m: int|
                        0 <= m < self.entries@.len() && self.entries@[m].0 == *data;
                    if kw != k {
                        assert(self.entries@[kw].0 == self.entries@[k as int].0);
                    }
                }
                Some(
                    Attestation {
                        data: *data,
                        attesting_indices: copy_u64_vec(&self.entries[k].1),
                    },
                )
            },
            None => None,
        }
    }

    /// Discard entries older than the look-back window and raise the floor
    /// for future insertions.
    pub fn prune(&mut self, current_slot: u64)
        requires
            old(self).wf(),
        ensures
            final(self).wf(),
            final(self).lowest_permissible_slot == if current_slot > POOL_SLOTS_RETAINED {
                (current_slot - POOL_SLOTS_RETAINED) as u64
            } else {
                0u64
            },
            forall|k: int|
                0 <= k < final(self).entries@.len() ==> (#[trigger] final(self).entries@[k]).0.slot
                    >= final(self).lowest_permissible_slot,
            forall|d: AttestationData|
                d.slot >= final(self).lowest_permissible_slot ==> #[trigger] spec_att_signers(
                    final(self).entries@,
                    d,
                ) == spec_att_signers(old(self).entries@, d),
    {
        let floor: u64 = if current_slot > POOL_SLOTS_RETAINED {
            current_slot - POOL_SLOTS_RETAINED
        } else {
            0
        };
        let ghost before_entries = self.entries@;
        let mut kept: Vec<(AttestationData, Vec<u64>)> = Vec::new();
        let ghost mut kept_from: Seq<int> = Seq::empty();
        while self.entries.len() > 0
            invariant
                old(self).wf(),
                before_entries == old(self).entries@,
                self.entries@.len() + kept_from.len() <= before_entries.len(),
                kept_from.len() == kept@.len(),
                forall|m: int|
                    0 <= m < kept@.len() ==> 0 <= #[trigger] kept_from[m] < before_entries.len()
                        - self.entries@.len() && kept@[m] == before_entries[kept_from[m]]
                        && kept@[m].0.slot >= floor,
                forall|m1: int, m2: int|
                    0 <= m1 < m2 < kept@.len() ==> #[trigger] kept_from[m1] < #[trigger] kept_from[m2],
                self.entries@ == before_entries.subrange(
                    before_entries.len() - self.entries@.len(),
                    before_entries.len() as int,
                ),
                forall|d: AttestationData|
                    d.slot >= floor && (exists|m: int|
                        0 <= m < before_entries.len() - self.entries@.len()
                            && #[trigger] before_entries[m].0 == d) ==> exists|m: int|
                        0 <= m < kept@.len() && (#[trigger] kept@[m]).0 == d,
                forall|m: int|
                    0 <= m < kept@.len() ==> exists|o: int|
                        0 <= o < before_entries.len() - self.entries@.len()
                            && #[trigger] kept@[m] == before_entries[o] && kept_from[m] == o,
            decreases self.entries@.len(),
        {
            let ghost consumed = before_entries.len() - self.entries@.len();
            let entry = self.entries.remove(0);
            proof {
                assert(entry == before_entries[consumed]);
                assert(before_entries.subrange(consumed, before_entries.len() as int).remove(0)
                    == before_entries.subrange(consumed + 1, before_entries.len() as int));
            }
            if entry.0.slot >= floor {
                let ghost old_kept = kept@;
                kept.push(entry);
                proof {
                    kept_from = kept_from.push(consumed);
                    assert(kept@[kept@.len() - 1] == before_entries[consumed]);
                    assert forall|d: AttestationData|
                        d.slot >= floor && (exists|m: int|
                            0 <= m < consumed + 1 && #[trigger] before_entries[m].0 == d) implies
                        exists|m: int| 0 <= m < kept@.len() && (#[trigger] kept@[m]).0 == d by {
                        let m = choose|m: int|
                            0 <= m < consumed + 1 && before_entries[m].0 == d;
                        if m < consumed {
                            let w = choose|w: int|
                                0 <= w < old_kept.len() && (#[trigger] old_kept[w]).0 == d;
                            assert((kept@[w]).0 == d);
                        } else {
                            assert((kept@[kept@.len() - 1]).0 == d);
                        }
                    }
                }
            } else {
                proof {
                    assert forall|d: AttestationData|
                        d.slot >= floor && (exists|m: int|
                            0 <= m < consumed + 1 && #[trigger] before_entries[m].0 == d) implies
                        exists|m: int| 0 <= m < kept@.len() && (#[trigger] kept@[m]).0 == d by {
                        let m = choose|m: int|
                            0 <= m < consumed + 1 && before_entries[m].0 == d;
                        if m == consumed {
                            assert(before_entries[m].0.slot < floor);
                        }
                    }
                }
            }
        }
        proof {
            assert(before_entries.subrange(
                before_entries.len() as int,
                before_entries.len() as int,
            ) =~= Seq::<(AttestationData, Vec<u64>)>::empty());
        }
        self.entries = kept;
        self.lowest_permissible_slot = floor;
        proof {
            assert forall|k1: int, k2: int|
                0 <= k1 < k2 < self.entries@.len() implies #[trigger] self.entries@[k1].0
                != #[trigger] self.entries@[k2].0 by {
                assert(self.entries@[k1] == before_entries[kept_from[k1]]);
                assert(self.entries@[k2] == before_entries[kept_from[k2]]);
            }
            assert forall|d: AttestationData|
                d.slot >= floor implies #[trigger] spec_att_signers(self.entries@, d)
                == spec_att_signers(before_entries, d) by {
                if exists|m: int| 0 <= m < before_entries.len() && before_entries[m].0 == d {
                    let mo = choose|m: int|
                        0 <= m < before_entries.len() && before_entries[m].0 == d;
                    assert(exists|m: int|
                        0 <= m < kept@.len() && (#[trigger] kept@[m]).0 == d);
                    let mk = choose|m: int| 0 <= m < kept@.len() && kept@[m].0 == d;
                    assert(kept@[mk] == before_entries[kept_from[mk]]);
                    if kept_from[mk] != mo {
                        assert(before_entries[kept_from[mk]].0 == before_entries[mo].0);
                    }
                    let mw = choose|m: int|
                        0 <= m < self.entries@.len() && self.entries@[m].0 == d;
                    if mw != mk {
                        assert(self.entries@[mw].0 == self.entries@[mk].0);
                    }
                    let mow = choose|m: int|
                        0 <= m < before_entries.len() && before_entries[m].0 == d;
                    if mow != mo {
                        assert(before_entries[mow].0 == before_entries[mo].0);
                    }
                } else {
                    if exists|m: int|
                        0 <= m < self.entries@.len() && self.entries@[m].0 == d {
                        let mw = choose|m: int|
                            0 <= m < self.entries@.len() && self.entries@[m].0 == d;
                        assert(self.entries@[mw] == before_entries[kept_from[mw]]);
                    }
                }
            }
        }
    }
}

/// An aggregated sync-committee contribution: its key and the distinct
/// validators that signed it.
pub struct SyncCommitteeContribution {
    pub data: SyncContributionData,
    pub signers: Vec<u64>,
}

/// The signers stored for a contribution key, if tracked.
pub open spec fn spec_sync_signers(
    entries: Seq<(SyncContributionData, Vec<u64>)>,
    data: SyncContributionData,
) -> Option<Seq<u64>> {
    if exists|k: int| 0 <= k < entries.len() && entries[k].0 == data {
        Some(entries[choose|k: int| 0 <= k < entries.len() && entries[k].0 == data].1@)
    } else {
        None
    }
}

/// A pool of sync-committee messages under the naive aggregation strategy.
pub struct SyncContributionPool {
    /// Contribution key and the distinct validators that signed it.
    pub entries: Vec<(SyncContributionData, Vec<u64>)>,
    /// Messages below this slot are refused.
    pub lowest_permissible_slot: u64,
}

impl SyncContributionPool {
    /// Keys are distinct and each entry's signers are distinct.
    pub open spec fn wf(self) -> bool {
        &&& forall|k1: int, k2: int|
            0 <= k1 < k2 < self.entries@.len() ==> #[trigger] self.entries@[k1].0
                != #[trigger] self.entries@[k2].0
        &&& forall|k: int|
            0 <= k < self.entries@.len() ==> (forall|i1: int, i2: int|
                0 <= i1 < i2 < (#[trigger] self.entries@[k]).1@.len()
                    ==> #[trigger] self.entries@[k].1@[i1] != #[trigger] self.entries@[k].1@[i2])
    }

    /// An empty pool.
    pub fn new() -> (p: SyncContributionPool)
        ensures
            p.wf(),
            p.entries@.len() == 0,
            p.lowest_permissible_slot == 0,
    {
        SyncContributionPool { entries: Vec::new(), lowest_permissible_slot: 0 }
    }

    /// Index of the entry for `data`, if tracked.
    fn index_of(&self, data: &SyncContributionData) -> (r: Option<usize>)
        ensures
            match r {
                Some(k) => k < self.entries@.len() && self.entries@[k as int].0 == *data,
                None => forall|k: int|
                    0 <= k < self.entries@.len() ==> (#[trigger] self.entries@[k]).0 != *data,
            },
    {
        let mut k: usize = 0;
        while k < self.entries.len()
            invariant
                k <= self.entries@.len(),
                forall|m: int| 0 <= m < k ==> (#[trigger] self.entries@[m]).0 != *data,
            decreases self.entries@.len() - k,
        {
            if self.entries[k].0 == *data {
                return Some(k);
            }
            k = k + 1;
        }
        None
    }

    /// Insert one validator's sync message for a contribution key, with
    /// the same outcome discipline as the attestation pool.
    pub fn insert(&mut self, data: &SyncContributionData, signer: u64) -> (r: Result<
        InsertOutcome,
        PoolError,
    >)
        requires
            old(self).wf(),
        ensures
            final(self).wf(),
            final(self).lowest_permissible_slot == old(self).lowest_permissible_slot,
            match r {
                Ok(outcome) => {
                    &&& data.slot >= old(self).lowest_permissible_slot
                    &&& {
                        let before = spec_sync_signers(old(self).entries@, *data);
                        let after = spec_sync_signers(final(self).entries@, *data);
                        match outcome {
                            InsertOutcome::NewItemInserted => before is None && after == Some(
                                seq![signer],
                            ),
                            InsertOutcome::SignatureAggregated => before is Some
                                && !before->0.contains(signer) && after == Some(
                                before->0.push(signer),
                            ),
                            InsertOutcome::SignatureAlreadyKnown => before is Some
                                && before->0.contains(signer) && final(self).entries@ == old(
                                self,
                            ).entries@,
                        }
                    }
                    &&& forall|d: SyncContributionData|
                        d != *data ==> #[trigger] spec_sync_signers(final(self).entries@, d)
                            == spec_sync_signers(old(self).entries@, d)
                },
                Err(PoolError::SlotTooLow { slot, lowest_permissible_slot }) => {
                    &&& slot == data.slot
                    &&& lowest_permissible_slot == old(self).lowest_permissible_slot
                    &&& data.slot < old(self).lowest_permissible_slot
                    &&& final(self).entries@ == old(self).entries@
                },
                Err(PoolError::NotExactlyOneSigner { .. }) => false,
            },
    {
        if data.slot < self.lowest_permissible_slot {
            return Err(
                PoolError::SlotTooLow {
                    slot: data.slot,
                    lowest_permissible_slot: self.lowest_permissible_slot,
                },
            );
        }
        let ghost before_entries = self.entries@;
        match self.index_of(data) {
            None => {
                let mut signers: Vec<u64> = Vec::new();
                signers.push(signer);
                self.entries.push((*data, signers));
                proof {
                    let n = self.entries@.len() - 1;
                    assert(self.entries@[n].0 == *data);
                    assert(self.entries@[n].1@ == seq![signer]);
                    assert(spec_sync_signers(self.entries@, *data) == Some(seq![signer])) by {
                        let kw = choose|k: int|
                            0 <= k < self.entries@.len() && self.entries@[k].0 == *data;
                        if kw != n {
                            assert(before_entries[kw].0 == *data);
                        }
                    }
                    assert forall|d: SyncContributionData|
                        d != *data implies #[trigger] spec_sync_signers(self.entries@, d)
                        == spec_sync_signers(before_entries, d) by {
                        if exists|k: int|
                            0 <= k < self.entries@.len() && self.entries@[k].0 == d {
                            let kw = choose|k: int|
                                0 <= k < self.entries@.len() && self.entries@[k].0 == d;
                            assert(kw != n);
                            assert(before_entries[kw].0 == d);
                            let ko = choose|k: int|
                                0 <= k < before_entries.len() && before_entries[k].0 == d;
                            if ko != kw {
                                assert(before_entries[ko].0 == before_entries[kw].0);
                            }
                        } else {
                            if exists|k: int|
                                0 <= k < before_entries.len() && before_entries[k].0 == d {
                                let ko = choose|k: int|
                                    0 <= k < before_entries.len() && before_entries[k].0 == d;
                                assert(self.entries@[ko].0 == d);
                            }
                        }
                    }
                }
                Ok(InsertOutcome::NewItemInserted)
            },
            Some(k) => {
                let entry_len = self.entries[k].1.len();
                let mut i: usize = 0;
                let mut known = false;
                while i < entry_len
                    invariant_except_break
                        known == exists|m: int|
                            0 <= m < i && self.entries@[k as int].1@[m] == signer,
                    invariant
                        old(self).wf(),
                        self.entries@ == before_entries,
                        k < self.entries@.len(),
                        entry_len == self.entries@[k as int].1@.len(),
                        i <= entry_len,
                    ensures
                        known == self.entries@[k as int].1@.contains(signer),
                    decreases entry_len - i,
                {
                    if self.entries[k].1[i] == signer {
                        known = true;
                        proof {
                            assert(self.entries@[k as int].1@[i as int] == signer);
                        }
                        break ;
                    }
                    i = i + 1;
                }
                proof {
                    assert(known == self.entries@[k as int].1@.contains(signer));
                    assert(spec_sync_signers(self.entries@, *data) == Some(
                        self.entries@[k as int].1@,
                    )) by {
                        let kw = choose|m: int|
                            0 <= m < self.entries@.len() && self.entries@[m].0 == *data;
                        if kw != k {
                            assert(self.entries@[kw].0 == self.entries@[k as int].0);
                        }
                    }
                }
                if known {
                    return Ok(InsertOutcome::SignatureAlreadyKnown);
                }
                let mut taken = self.entries.remove(k);
                taken.1.push(signer);
                self.entries.insert(k, taken);
                proof {
                    assert(self.entries@.len() == before_entries.len());
                    assert forall|m: int|
                        0 <= m < self.entries@.len() && m != k implies #[trigger] self.entries@[m]
                        == before_entries[m] by {
                        if m < k {
                            assert(before_entries.remove(k as int)[m] == before_entries[m]);
                        } else {
                            assert(before_entries.remove(k as int)[m - 1] == before_entries[m]);
                        }
                    }
                    assert(self.entries@[k as int].0 == *data);
                    assert(self.entries@[k as int].1@ == before_entries[k as int].1@.push(
                        signer,
                    ));
                    assert(spec_sync_signers(self.entries@, *data) == Some(
                        before_entries[k as int].1@.push(signer),
                    )) by {
                        let kw = choose|m: int|
                            0 <= m < self.entries@.len() && self.entries@[m].0 == *data;
                        if kw != k {
                            assert(self.entries@[kw] == before_entries[kw]);
                            assert(before_entries[kw].0 == before_entries[k as int].0);
                        }
                    }
                    assert forall|d: SyncContributionData|
                        d != *data implies #[trigger] spec_sync_signers(self.entries@, d)
                        == spec_sync_signers(before_entries, d) by {
                        if exists|m: int|
                            0 <= m < self.entries@.len() && self.entries@[m].0 == d {
                            let kw = choose|m: int|
                                0 <= m < self.entries@.len() && self.entries@[m].0 == d;
                            assert(kw != k);
                            assert(self.entries@[kw] == before_entries[kw]);
                            let ko = choose|m: int|
                                0 <= m < before_entries.len() && before_entries[m].0 == d;
                            if ko != kw {
                                assert(before_entries[ko].0 == before_entries[kw].0);
                            }
                        } else {
                            if exists|m: int|
                                0 <= m < before_entries.len() && before_entries[m].0 == d {
                                let ko = choose|m: int|
                                    0 <= m < before_entries.len() && before_entries[m].0 == d;
                                assert(ko != k);
                                assert(self.entries@[ko].0 == d);
                            }
                        }
                    }
                }
                Ok(InsertOutcome::SignatureAggregated)
            },
        }
    }

    /// The aggregate contribution for a key, if any message matched it.
    pub fn get(&self, data: &SyncContributionData) -> (r: Option<SyncCommitteeContribution>)
        requires
            self.wf(),
        ensures
            match r {
                Some(c) => {
                    &&& spec_sync_signers(self.entries@, *data) is Some
                    &&& c.data == *data
                    &&& c.signers@ == spec_sync_signers(self.entries@, *data)->0
                },
                None => spec_sync_signers(self.entries@, *data) is None,
            },
    {
        match self.index_of(data) {
            Some(k) => {
                proof {
                    let kw = choose|m: int|
                        0 <= m < self.entries@.len() && self.entries@[m].0 == *data;
                    if kw != k {
                        assert(self.entries@[kw].0 == self.entries@[k as int].0);
                    }
                }
                Some(
                    SyncCommitteeContribution {
                        data: *data,
                        signers: copy_u64_vec(&self.entries[k].1),
                    },
                )
            },
            None => None,
        }
    }

    /// Discard entries older than the look-back window and raise the floor
    /// for future insertions.
    pub fn prune(&mut self, current_slot: u64)
        requires
            old(self).wf(),
        ensures
            final(self).wf(),
            final(self).lowest_permissible_slot == if current_slot > POOL_SLOTS_RETAINED {
                (current_slot - POOL_SLOTS_RETAINED) as u64
            } else {
                0u64
            },
            forall|k: int|
                0 <= k < final(self).entries@.len() ==> (#[trigger] final(self).entries@[k]).0.slot
                    >= final(self).lowest_permissible_slot,
    {
        let floor: u64 = if current_slot > POOL_SLOTS_RETAINED {
            current_slot - POOL_SLOTS_RETAINED
        } else {
            0
        };
        let ghost before_entries = self.entries@;
        let mut kept: Vec<(SyncContributionData, Vec<u64>)> = Vec::new();
        let ghost mut kept_from: Seq<int> = Seq::empty();
        while self.entries.len() > 0
            invariant
                old(self).wf(),
                before_entries == old(self).entries@,
                self.entries@.len() <= before_entries.len(),
                kept_from.len() == kept@.len(),
                forall|m: int|
                    0 <= m < kept@.len() ==> 0 <= #[trigger] kept_from[m] < before_entries.len()
                        - self.entries@.len() && kept@[m] == before_entries[kept_from[m]]
                        && kept@[m].0.slot >= floor,
                forall|m1: int, m2: int|
                    0 <= m1 < m2 < kept@.len() ==> #[trigger] kept_from[m1] < #[trigger] kept_from[m2],
                self.entries@ == before_entries.subrange(
                    before_entries.len() - self.entries@.len(),
                    before_entries.len() as int,
                ),
            decreases self.entries@.len(),
        {
            let ghost consumed = before_entries.len() - self.entries@.len();
            let entry = self.entries.remove(0);
            proof {
                assert(entry == before_entries[consumed]);
                assert(before_entries.subrange(consumed, before_entries.len() as int).remove(0)
                    == before_entries.subrange(consumed + 1, before_entries.len() as int));
            }
            if entry.0.slot >= floor {
                kept.push(entry);
                proof {
                    kept_from = kept_from.push(consumed);
                    assert(kept@[kept@.len() - 1] == before_entries[consumed]);
                }
            }
        }
        self.entries = kept;
        self.lowest_permissible_slot = floor;
        proof {
            assert forall|k1: int, k2: int|
                0 <= k1 < k2 < self.entries@.len() implies #[trigger] self.entries@[k1].0
                != #[trigger] self.entries@[k2].0 by {
                assert(self.entries@[k1] == before_entries[kept_from[k1]]);
                assert(self.entries@[k2] == before_entries[kept_from[k2]]);
            }
            assert forall|k: int|
                0 <= k < self.entries@.len() implies (#[trigger] self.entries@[k]).0.slot
                >= floor && (forall|i1: int, i2: int|
                0 <= i1 < i2 < self.entries@[k].1@.len() ==> #[trigger] self.entries@[k].1@[i1]
                    != #[trigger] self.entries@[k].1@[i2]) by {
                assert(self.entries@[k] == before_entries[kept_from[k]]);
            }
        }
    }
}

impl NaiveAggregationPool {
    /// Every aggregate currently in the pool.
    pub fn all_attestations(&self) -> (r: Vec<Attestation>)
        ensures
            r@.len() == self.entries@.len(),
            forall|k: int|
                0 <= k < r@.len() ==> (#[trigger] r@[k]).data == self.entries@[k].0 && r@[
                    k].attesting_indices@ == self.entries@[k].1@,
    {
        let mut r: Vec<Attestation> = Vec::new();
        let mut k: usize = 0;
        while k < self.entries.len()
            invariant
                k <= self.entries@.len(),
                r@.len() == k,
                forall|m: int|
                    0 <= m < k ==> (#[trigger] r@[m]).data == self.entries@[m].0 && r@[
                        m].attesting_indices@ == self.entries@[m].1@,
            decreases self.entries@.len() - k,
        {
            r.push(
                Attestation { data: self.entries[k].0, attesting_indices: copy_u64_vec(&self.entries[k].1) },
            );
            k = k + 1;
        }
        r
    }
}

/// The operation pool: candidates for inclusion in produced blocks.
///
/// Signature checks happened before anything enters; the pool only stores
/// and prunes.
pub struct OperationPool {
    pub attestations: Vec<Attestation>,
    pub voluntary_exits: Vec<u64>,
    pub proposer_slashings: Vec<u64>,
    pub attester_slashings: Vec<u64>,
    pub sync_contributions: Vec<(SyncContributionData, Vec<u64>)>,
}

impl OperationPool {
    /// An empty pool.
    pub fn new() -> (p: OperationPool)
        ensures
            p.attestations@.len() == 0,
            p.voluntary_exits@.len() == 0,
            p.proposer_slashings@.len() == 0,
            p.attester_slashings@.len() == 0,
            p.sync_contributions@.len() == 0,
    {
        OperationPool {
            attestations: Vec::new(),
            voluntary_exits: Vec::new(),
            proposer_slashings: Vec::new(),
            attester_slashings: Vec::new(),
            sync_contributions: Vec::new(),
        }
    }

    /// Queue a sync contribution for inclusion.
    pub fn insert_sync_contribution(&mut self, data: SyncContributionData, signers: Vec<u64>)
        ensures
            final(self).sync_contributions@ == old(self).sync_contributions@.push(
                (data, signers),
            ),
            final(self).attestations@ == old(self).attestations@,
            final(self).voluntary_exits@ == old(self).voluntary_exits@,
            final(self).proposer_slashings@ == old(self).proposer_slashings@,
            final(self).attester_slashings@ == old(self).attester_slashings@,
    {
        self.sync_contributions.push((data, signers));
    }

    /// Queue an attestation for inclusion.
    pub fn insert_attestation(&mut self, attestation: Attestation)
        ensures
            atts_abs(final(self).attestations@) == atts_abs(old(self).attestations@).push(
                attestation@,
            ),
            final(self).voluntary_exits@ == old(self).voluntary_exits@,
            final(self).proposer_slashings@ == old(self).proposer_slashings@,
            final(self).attester_slashings@ == old(self).attester_slashings@,
    {
        let ghost before = self.attestations@;
        let ghost snap = attestation;
        self.attestations.push(attestation);
        proof {
            lemma_atts_abs_push(before, snap);
        }
    }

    /// Queue a voluntary exit for inclusion.
    pub fn insert_voluntary_exit(&mut self, validator_index: u64)
        ensures
            final(self).voluntary_exits@ == old(self).voluntary_exits@.push(validator_index),
            final(self).attestations@ == old(self).attestations@,
            final(self).proposer_slashings@ == old(self).proposer_slashings@,
            final(self).attester_slashings@ == old(self).attester_slashings@,
    {
        self.voluntary_exits.push(validator_index);
    }

    /// Queue a proposer slashing for inclusion.
    pub fn insert_proposer_slashing(&mut self, validator_index: u64)
        ensures
            final(self).proposer_slashings@ == old(self).proposer_slashings@.push(
                validator_index,
            ),
            final(self).attestations@ == old(self).attestations@,
            final(self).voluntary_exits@ == old(self).voluntary_exits@,
            final(self).attester_slashings@ == old(self).attester_slashings@,
    {
        self.proposer_slashings.push(validator_index);
    }

    /// Queue an attester slashing for inclusion.
    pub fn insert_attester_slashing(&mut self, validator_index: u64)
        ensures
            final(self).attester_slashings@ == old(self).attester_slashings@.push(
                validator_index,
            ),
            final(self).attestations@ == old(self).attestations@,
            final(self).voluntary_exits@ == old(self).voluntary_exits@,
            final(self).proposer_slashings@ == old(self).proposer_slashings@,
    {
        self.attester_slashings.push(validator_index);
    }

    /// Drop attestations whose target epoch is in the past.
    pub fn prune_attestations(&mut self, current_epoch: u64)
        ensures
            forall|k: int|
                0 <= k < final(self).attestations@.len()
                    ==> (#[trigger] final(self).attestations@[k]).data.target.epoch + 1
                    >= current_epoch,
            final(self).voluntary_exits@ == old(self).voluntary_exits@,
            final(self).proposer_slashings@ == old(self).proposer_slashings@,
            final(self).attester_slashings@ == old(self).attester_slashings@,
    {
        let mut kept: Vec<Attestation> = Vec::new();
        while self.attestations.len() > 0
            invariant
                forall|k: int|
                    0 <= k < kept@.len() ==> (#[trigger] kept@[k]).data.target.epoch + 1
                        >= current_epoch,
                self.voluntary_exits@ == old(self).voluntary_exits@,
                self.proposer_slashings@ == old(self).proposer_slashings@,
                self.attester_slashings@ == old(self).attester_slashings@,
            decreases self.attestations@.len(),
        {
            let a = self.attestations.remove(0);
            if a.data.target.epoch >= current_epoch || current_epoch - a.data.target.epoch <= 1 {
                kept.push(a);
            }
        }
        self.attestations = kept;
    }
}

} // verus!
