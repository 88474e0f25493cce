//! The model state and the pure transition consumed by the pipeline.
//!
//! The real per-slot/per-block processing rules are out of scope; the engine
//! consumes them as a pure function. This module supplies that function over
//! a condensed state: slot, historical roots, randao mix, justification and
//! finalization checkpoints, and per-epoch participation counters driving a
//! simple two-consecutive-epoch finality rule.

use vstd::prelude::*;
use vstd::arithmetic::div_mod::lemma_fundamental_div_mod;
use crate::primitives::{Checkpoint, SLOTS_PER_EPOCH, SLOTS_PER_HISTORICAL_ROOT, spec_epoch_of, spec_start_slot};
use crate::block::{Attestation, BlockSummary};
use crate::errors::BlockError;

verus! {

/// Upper bound on slots the model works with; keeps all slot and epoch
/// arithmetic far from `u64` overflow.
pub const MAX_SLOT: u64 = 0x1_0000_0000;

/// Upper bound on the validator registry size.
pub const MAX_VALIDATORS: u64 = 0x1000_0000;

/// Salt mixed into derived state roots of skipped slots.
pub const SKIP_ROOT_SALT: u64 = 0x5eed_0f0f_1234_abcd;

/// Protocol constants that parameterize the engine.
#[derive(Clone, Copy, PartialEq, Eq, Structural, Debug)]
pub struct ChainSpec {
    pub seconds_per_slot: u64,
    /// First epoch of the first upgraded fork, if scheduled.
    pub altair_fork_epoch: Option<u64>,
    /// First epoch of the merge fork, if scheduled.
    pub bellatrix_fork_epoch: Option<u64>,
}

impl ChainSpec {
    /// Fork version in force at `epoch`.
    pub open spec fn spec_fork_version_at_epoch(self, epoch: u64) -> u64 {
        if self.bellatrix_fork_epoch is Some && self.bellatrix_fork_epoch->0 <= epoch {
            2
        } else if self.altair_fork_epoch is Some && self.altair_fork_epoch->0 <= epoch {
            1
        } else {
            0
        }
    }

    /// Executable form of `spec_fork_version_at_epoch`.
    pub fn fork_version_at_epoch(&self, epoch: u64) -> (v: u64)
        ensures
            v == self.spec_fork_version_at_epoch(epoch),
    {
        match self.bellatrix_fork_epoch {
            Some(b) if b <= epoch => 2,
            _ => match self.altair_fork_epoch {
                Some(a) if a <= epoch => 1,
                _ => 0,
            },
        }
    }
}

impl Default for ChainSpec {
    /// A spec with both upgrades active from genesis.
    fn default() -> (s: Self)
        ensures
            s.seconds_per_slot == 12,
            s.altair_fork_epoch == Some(0u64),
            s.bellatrix_fork_epoch == Some(0u64),
    {
        ChainSpec { seconds_per_slot: 12, altair_fork_epoch: Some(0), bellatrix_fork_epoch: Some(0) }
    }
}

/// Runtime behaviour knobs of the engine.
#[derive(Clone, Copy, PartialEq, Eq, Structural, Debug)]
pub struct ChainConfig {
    /// Operator-supplied trusted checkpoint, checked once when finality
    /// first reaches its epoch.
    pub weak_subjectivity_checkpoint: Option<Checkpoint>,
    /// Blocks whose modelled wire size exceeds this are rejected before any
    /// transition work.
    pub max_network_size: u64,
}

impl Default for ChainConfig {
    fn default() -> (c: Self)
        ensures
            c.weak_subjectivity_checkpoint is None,
            c.max_network_size == 10_000_000,
    {
        ChainConfig { weak_subjectivity_checkpoint: None, max_network_size: 10_000_000 }
    }
}

/// Modelled proposer for `slot` under shuffling seed `seed`.
pub open spec fn spec_proposer_for(seed: u64, slot: u64, validator_count: u64) -> u64
    recommends
        validator_count >= 1,
{
    (((seed as int % validator_count as int) + (slot as int % validator_count as int))
        % validator_count as int) as u64
}

/// Executable form of `spec_proposer_for`.
pub fn proposer_for(seed: u64, slot: u64, validator_count: u64) -> (p: u64)
    requires
        1 <= validator_count <= MAX_VALIDATORS,
    ensures
        p == spec_proposer_for(seed, slot, validator_count),
        p < validator_count,
{
    ((seed % validator_count) + (slot % validator_count)) % validator_count
}

/// Validators with index below `n` that sit on the committee of `slot`
/// under shuffling seed `seed`, in increasing index order.
pub open spec fn spec_committee_below(seed: u64, slot: u64, n: nat) -> Seq<u64>
    decreases n,
{
    if n == 0 {
        Seq::empty()
    } else {
        let prefix = spec_committee_below(seed, slot, (n - 1) as nat);
        if ((n - 1) + seed as int % SLOTS_PER_EPOCH as int) % SLOTS_PER_EPOCH as int == slot as int
            % SLOTS_PER_EPOCH as int {
            prefix.push((n - 1) as u64)
        } else {
            prefix
        }
    }
}

/// The committee assignment for `slot` under shuffling seed `seed`: every
/// committee is determined by the shuffling seed alone, so two blocks that
/// share a decision root share their committees.
pub open spec fn spec_committee(seed: u64, slot: u64, validator_count: u64) -> Seq<u64> {
    spec_committee_below(seed, slot, validator_count as nat)
}

/// Build the committee for `slot` under shuffling seed `seed`.
pub fn compute_committee(seed: u64, slot: u64, validator_count: u64) -> (c: Vec<u64>)
    requires
        validator_count <= MAX_VALIDATORS,
    ensures
        c@ == spec_committee(seed, slot, validator_count),
{
    let mut c: Vec<u64> = Vec::new();
    let mut v: u64 = 0;
    while v < validator_count
        invariant
            v <= validator_count,
            validator_count <= MAX_VALIDATORS,
            c@ == spec_committee_below(seed, slot, v as nat),
        decreases validator_count - v,
    {
        if (v + seed % SLOTS_PER_EPOCH) % SLOTS_PER_EPOCH == slot % SLOTS_PER_EPOCH {
            c.push(v);
        }
        v = v + 1;
    }
    c
}

/// Number of attesters recorded by a sequence of attestations whose target
/// epoch is `epoch`.
pub open spec fn spec_attesters_for_epoch(atts: Seq<Attestation>, epoch: u64) -> int
    decreases atts.len(),
{
    if atts.len() == 0 {
        0
    } else {
        spec_attesters_for_epoch(atts.drop_last(), epoch) + if atts.last().data.target.epoch
            == epoch {
            atts.last().attesting_indices@.len() as int
        } else {
            0
        }
    }
}

/// The condensed chain state the transition operates on.
#[derive(Clone, Debug)]
pub struct StateSummary {
    /// Slot the state has been advanced to.
    pub slot: u64,
    pub genesis_time: u64,
    pub genesis_validators_root: u64,
    /// Fork version in force at `slot`.
    pub fork_version: u64,
    /// Size of the validator registry.
    pub validator_count: u64,
    /// Current randao mix.
    pub randao: u64,
    /// Root of the block at each past slot; a skipped slot carries the root
    /// of the closest prior non-skipped slot. Indexed by slot.
    pub block_roots: Vec<u64>,
    /// Root of the state at each past slot. Indexed by slot.
    pub state_roots: Vec<u64>,
    /// Root of the most recently applied block.
    pub latest_block_root: u64,
    /// Root of this state.
    pub current_state_root: u64,
    pub previous_justified: Checkpoint,
    pub current_justified: Checkpoint,
    pub finalized: Checkpoint,
    /// Attesters seen targeting the epoch before the current one.
    pub prev_epoch_attesters: u64,
    /// Attesters seen targeting the current epoch.
    pub curr_epoch_attesters: u64,
}

/// Mathematical value of a `StateSummary`.
pub ghost struct StateAbs {
    pub slot: u64,
    pub genesis_time: u64,
    pub genesis_validators_root: u64,
    pub fork_version: u64,
    pub validator_count: u64,
    pub randao: u64,
    pub block_roots: Seq<u64>,
    pub state_roots: Seq<u64>,
    pub latest_block_root: u64,
    pub current_state_root: u64,
    pub previous_justified: Checkpoint,
    pub current_justified: Checkpoint,
    pub finalized: Checkpoint,
    pub prev_epoch_attesters: u64,
    pub curr_epoch_attesters: u64,
}

impl View for StateSummary {
    type V = StateAbs;

    open spec fn view(&self) -> StateAbs {
        StateAbs {
            slot: self.slot,
            genesis_time: self.genesis_time,
            genesis_validators_root: self.genesis_validators_root,
            fork_version: self.fork_version,
            validator_count: self.validator_count,
            randao: self.randao,
            block_roots: self.block_roots@,
            state_roots: self.state_roots@,
            latest_block_root: self.latest_block_root,
            current_state_root: self.current_state_root,
            previous_justified: self.previous_justified,
            current_justified: self.current_justified,
            finalized: self.finalized,
            prev_epoch_attesters: self.prev_epoch_attesters,
            curr_epoch_attesters: self.curr_epoch_attesters,
        }
    }
}

impl StateSummary {
    /// Well-formedness: root histories are exactly as long as the slot, the
    /// registry is non-empty and bounded, counters are capped, and the
    /// checkpoints never run ahead of the state or regress against each
    /// other.
    pub open spec fn wf(self) -> bool {
        &&& self.block_roots@.len() == self.slot
        &&& self.state_roots@.len() == self.slot
        &&& self.slot < MAX_SLOT
        &&& 1 <= self.validator_count <= MAX_VALIDATORS
        &&& self.prev_epoch_attesters <= self.validator_count
        &&& self.curr_epoch_attesters <= self.validator_count
        &&& self.finalized.epoch <= self.current_justified.epoch
        &&& self.previous_justified.epoch <= self.current_justified.epoch
        &&& self.current_justified.epoch <= spec_epoch_of(self.slot)
    }

    /// The epoch of `slot`.
    pub open spec fn spec_current_epoch(self) -> u64 {
        spec_epoch_of(self.slot)
    }

    /// Executable form of `spec_current_epoch`.
    pub fn current_epoch(&self) -> (e: u64)
        ensures
            e == self.spec_current_epoch(),
    {
        self.slot / SLOTS_PER_EPOCH
    }

    /// The fresh state at genesis.
    pub fn genesis(
        validator_count: u64,
        genesis_time: u64,
        genesis_validators_root: u64,
        genesis_block_root: u64,
        genesis_state_root: u64,
        spec: &ChainSpec,
    ) -> (s: StateSummary)
        requires
            1 <= validator_count <= MAX_VALIDATORS,
        ensures
            s.wf(),
            s.slot == 0,
            s.validator_count == validator_count,
            s.latest_block_root == genesis_block_root,
            s.current_state_root == genesis_state_root,
            s.genesis_time == genesis_time,
            s.genesis_validators_root == genesis_validators_root,
            s.finalized == (Checkpoint { epoch: 0u64, root: genesis_block_root }),
            s.current_justified == (Checkpoint { epoch: 0u64, root: genesis_block_root }),
            s.previous_justified == (Checkpoint { epoch: 0u64, root: genesis_block_root }),
            s.fork_version == spec.spec_fork_version_at_epoch(0),
    {
        let cp = Checkpoint { epoch: 0, root: genesis_block_root };
        StateSummary {
            slot: 0,
            genesis_time,
            genesis_validators_root,
            fork_version: spec.fork_version_at_epoch(0),
            validator_count,
            randao: genesis_block_root,
            block_roots: Vec::new(),
            state_roots: Vec::new(),
            latest_block_root: genesis_block_root,
            current_state_root: genesis_state_root,
            previous_justified: cp,
            current_justified: cp,
            finalized: cp,
            prev_epoch_attesters: 0,
            curr_epoch_attesters: 0,
        }
    }

    /// Block root recorded for `slot`, when it lies in the historical
    /// window strictly before the state's slot.
    pub open spec fn spec_block_root_at(self, slot: u64) -> Option<u64> {
        if slot < self.slot && slot + SLOTS_PER_HISTORICAL_ROOT >= self.slot {
            Some(self.block_roots@[slot as int])
        } else {
            None
        }
    }

    /// Executable form of `spec_block_root_at`.
    pub fn block_root_at(&self, slot: u64) -> (r: Option<u64>)
        requires
            self.wf(),
        ensures
            r == self.spec_block_root_at(slot),
    {
        if slot < self.slot && slot + SLOTS_PER_HISTORICAL_ROOT >= self.slot {
            Some(self.block_roots[slot as usize])
        } else {
            None
        }
    }

    /// State root recorded for `slot`, within the same window.
    pub open spec fn spec_state_root_at(self, slot: u64) -> Option<u64> {
        if slot < self.slot && slot + SLOTS_PER_HISTORICAL_ROOT >= self.slot {
            Some(self.state_roots@[slot as int])
        } else {
            None
        }
    }

    /// Executable form of `spec_state_root_at`.
    pub fn state_root_at(&self, slot: u64) -> (r: Option<u64>)
        requires
            self.wf(),
        ensures
            r == self.spec_state_root_at(slot),
    {
        if slot < self.slot && slot + SLOTS_PER_HISTORICAL_ROOT >= self.slot {
            Some(self.state_roots[slot as usize])
        } else {
            None
        }
    }

    /// Decision root of the proposer shuffling for the current epoch: the
    /// block root at the last slot of the previous epoch.
    pub open spec fn spec_proposer_decision_root(self) -> u64 {
        let e = self.spec_current_epoch();
        if spec_start_slot(e) == 0 || spec_start_slot(e) > self.slot {
            self.proposer_root_fallback()
        } else {
            let ds = spec_start_slot(e) - 1;
            if ds < self.block_roots@.len() {
                self.block_roots@[ds]
            } else {
                self.latest_block_root
            }
        }
    }

    /// Fallback decision root when the previous epoch pre-dates the chain.
    pub open spec fn proposer_root_fallback(self) -> u64 {
        if self.block_roots@.len() > 0 {
            self.block_roots@[0]
        } else {
            self.latest_block_root
        }
    }

    /// Executable form of `spec_proposer_decision_root`.
    pub fn proposer_decision_root(&self) -> (r: u64)
        requires
            self.wf(),
        ensures
            r == self.spec_proposer_decision_root(),
    {
        let e = self.current_epoch();
        let start: u64 = e * SLOTS_PER_EPOCH;
        proof {
            lemma_fundamental_div_mod(self.slot as int, SLOTS_PER_EPOCH as int);
        }
        if start == 0 || start > self.slot {
            if self.block_roots.len() > 0 {
                self.block_roots[0]
            } else {
                self.latest_block_root
            }
        } else {
            let ds = start - 1;
            if ds < self.block_roots.len() as u64 {
                self.block_roots[ds as usize]
            } else {
                self.latest_block_root
            }
        }
    }

    /// Decision root of the attester shuffling for `epoch` on this chain:
    /// the block root at the last slot of `epoch - 2`, or the earliest
    /// available root for the first two epochs.
    pub open spec fn spec_attester_decision_root(self, epoch: u64) -> u64 {
        if epoch < 2 {
            self.proposer_root_fallback()
        } else {
            let ds = spec_start_slot((epoch - 1) as u64) - 1;
            if ds < self.block_roots@.len() {
                self.block_roots@[ds]
            } else {
                self.latest_block_root
            }
        }
    }

    /// Executable form of `spec_attester_decision_root`.
    pub fn attester_decision_root(&self, epoch: u64) -> (r: u64)
        requires
            self.wf(),
            epoch <= spec_epoch_of(self.slot) + 1,
        ensures
            r == self.spec_attester_decision_root(epoch),
    {
        if epoch < 2 {
            if self.block_roots.len() > 0 {
                self.block_roots[0]
            } else {
                self.latest_block_root
            }
        } else {
            let ds: u64 = (epoch - 1) * SLOTS_PER_EPOCH - 1;
            if ds < self.block_roots.len() as u64 {
                self.block_roots[ds as usize]
            } else {
                self.latest_block_root
            }
        }
    }

    /// Root of the derived state produced when a slot is skipped.
    pub open spec fn spec_skip_root(self) -> u64 {
        (self.current_state_root ^ SKIP_ROOT_SALT) ^ ((self.slot + 1) as u64)
    }

    /// Whether advancing past `self.slot` crosses an epoch boundary.
    pub open spec fn spec_boundary_next(self) -> bool {
        ((self.slot + 1) as u64) % SLOTS_PER_EPOCH == 0
    }

    /// Justification checkpoints after the boundary at the end of the
    /// completed epoch `epoch_of(self.slot)`: with a two-thirds
    /// participation the completed epoch becomes justified, and two
    /// consecutively justified epochs finalize the earlier one.
    pub open spec fn spec_boundary_checkpoints(self) -> (Checkpoint, Checkpoint, Checkpoint) {
        let completed = spec_epoch_of(self.slot);
        let old_cj = self.current_justified;
        if self.curr_epoch_attesters * 3 >= self.validator_count * 2 {
            let boundary_slot = spec_start_slot(completed);
            let root = if boundary_slot < self.block_roots@.len() {
                self.block_roots@[boundary_slot]
            } else {
                self.latest_block_root
            };
            let new_cj = Checkpoint { epoch: completed, root };
            let new_fin = if old_cj.epoch + 1 == completed {
                old_cj
            } else {
                self.finalized
            };
            (old_cj, new_cj, new_fin)
        } else {
            (self.current_justified, self.current_justified, self.finalized)
        }
    }

    /// Advance the state by one slot without applying a block.
    ///
    /// Rolls the root histories forward, refreshes the fork version and, on
    /// an epoch boundary, runs the justification and finalization rule and
    /// rotates the participation counters. When `compute_state_roots` is
    /// false the derived state root is zeroed, which is cheaper and
    /// sufficient for shuffling-only consumers.
    pub fn advance_slot(&mut self, spec: &ChainSpec, compute_state_roots: bool)
        requires
            old(self).wf(),
            old(self).slot + 1 < MAX_SLOT,
        ensures
            final(self).wf(),
            final(self).slot == old(self).slot + 1,
            final(self).block_roots@ == old(self).block_roots@.push(old(self).latest_block_root),
            final(self).state_roots@ == old(self).state_roots@.push(old(self).current_state_root),
            final(self).latest_block_root == old(self).latest_block_root,
            final(self).randao == old(self).randao,
            final(self).validator_count == old(self).validator_count,
            final(self).genesis_time == old(self).genesis_time,
            final(self).genesis_validators_root == old(self).genesis_validators_root,
            final(self).fork_version == spec.spec_fork_version_at_epoch(
                spec_epoch_of((old(self).slot + 1) as u64),
            ),
            final(self).current_state_root == if compute_state_roots {
                old(self).spec_skip_root()
            } else {
                0u64
            },
            old(self).spec_boundary_next() ==> {
                &&& (
                final(self).previous_justified,
                final(self).current_justified,
                final(self).finalized,
                ) == old(self).spec_boundary_checkpoints()
                &&& final(self).prev_epoch_attesters == old(self).curr_epoch_attesters
                &&& final(self).curr_epoch_attesters == 0
            },
            !old(self).spec_boundary_next() ==> {
                &&& final(self).previous_justified == old(self).previous_justified
                &&& final(self).current_justified == old(self).current_justified
                &&& final(self).finalized == old(self).finalized
                &&& final(self).prev_epoch_attesters == old(self).prev_epoch_attesters
                &&& final(self).curr_epoch_attesters == old(self).curr_epoch_attesters
            },
            final(self)@ == old(self)@.step(*spec, compute_state_roots),
    {
        proof {
            lemma_fundamental_div_mod(self.slot as int, SLOTS_PER_EPOCH as int);
            lemma_fundamental_div_mod((self.slot + 1) as int, SLOTS_PER_EPOCH as int);
        }
        self.block_roots.push(self.latest_block_root);
        self.state_roots.push(self.current_state_root);
        let new_slot = self.slot + 1;
        if new_slot % SLOTS_PER_EPOCH == 0 {
            let completed = self.slot / SLOTS_PER_EPOCH;
            let old_cj = self.current_justified;
            if self.curr_epoch_attesters * 3 >= self.validator_count * 2 {
                let boundary_slot = completed * SLOTS_PER_EPOCH;
                let root = if (boundary_slot as usize) < self.block_roots.len() {
                    self.block_roots[boundary_slot as usize]
                } else {
                    self.latest_block_root
                };
                self.previous_justified = old_cj;
                self.current_justified = Checkpoint { epoch: completed, root };
                if old_cj.epoch + 1 == completed {
                    self.finalized = old_cj;
                }
            } else {
                self.previous_justified = self.current_justified;
            }
            self.prev_epoch_attesters = self.curr_epoch_attesters;
            self.curr_epoch_attesters = 0;
        }
        self.current_state_root = if compute_state_roots {
            (self.current_state_root ^ SKIP_ROOT_SALT) ^ new_slot
        } else {
            0
        };
        self.fork_version = spec.fork_version_at_epoch(new_slot / SLOTS_PER_EPOCH);
        self.slot = new_slot;
        proof {
            assert(self@ == old(self)@.step(*spec, compute_state_roots));
        }
    }

    /// Copy with a known contract.
    pub fn duplicate(&self) -> (s: StateSummary)
        ensures
            s@ == self@,
    {
        StateSummary {
            slot: self.slot,
            genesis_time: self.genesis_time,
            genesis_validators_root: self.genesis_validators_root,
            fork_version: self.fork_version,
            validator_count: self.validator_count,
            randao: self.randao,
            block_roots: crate::primitives::copy_u64_vec(&self.block_roots),
            state_roots: crate::primitives::copy_u64_vec(&self.state_roots),
            latest_block_root: self.latest_block_root,
            current_state_root: self.current_state_root,
            previous_justified: self.previous_justified,
            current_justified: self.current_justified,
            finalized: self.finalized,
            prev_epoch_attesters: self.prev_epoch_attesters,
            curr_epoch_attesters: self.curr_epoch_attesters,
        }
    }

    /// Apply `block` to a state already advanced to the block's slot.
    ///
    /// Rejects a block whose parent is not the latest applied block, whose
    /// fork version is wrong for the slot, or whose proposer is not the
    /// scheduled one. On success the block becomes the latest block, its
    /// randao contribution is mixed in, its claimed state root is adopted
    /// and its attestations are counted towards their target epochs.
    pub fn apply_block(&mut self, block: &BlockSummary, spec: &ChainSpec) -> (r: Result<
        (),
        BlockError,
    >)
        requires
            old(self).wf(),
            old(self).slot == block.slot,
        ensures
            final(self).wf(),
            r is Ok <==> old(self)@.block_applies(block@),
            match r {
                Ok(()) => final(self)@ == old(self)@.apply(block@),
                Err(e) => {
                    &&& *final(self) == *old(self)
                    &&& (e == BlockError::StateTransitionError <==> block.parent_root != old(
                        self,
                    ).latest_block_root)
                    &&& (e == BlockError::InconsistentFork <==> block.parent_root == old(
                        self,
                    ).latest_block_root && block.fork_version != old(self).fork_version)
                    &&& (e == (BlockError::IncorrectBlockProposer {
                        block: block.proposer_index,
                        local_shuffling: spec_proposer_for(
                            old(self).spec_proposer_decision_root(),
                            block.slot,
                            old(self).validator_count,
                        ),
                    }) <==> (block.parent_root == old(self).latest_block_root
                        && block.fork_version == old(self).fork_version
                        && block.proposer_index != spec_proposer_for(
                        old(self).spec_proposer_decision_root(),
                        block.slot,
                        old(self).validator_count,
                    )))
                    &&& (e matches BlockError::IncorrectBlockProposer { .. } ==> e == (
                    BlockError::IncorrectBlockProposer {
                        block: block.proposer_index,
                        local_shuffling: spec_proposer_for(
                            old(self).spec_proposer_decision_root(),
                            block.slot,
                            old(self).validator_count,
                        ),
                    }))
                },
            },
    {
        if block.parent_root != self.latest_block_root {
            return Err(BlockError::StateTransitionError);
        }
        if block.fork_version != self.fork_version {
            return Err(BlockError::InconsistentFork);
        }
        let expected = proposer_for(self.proposer_decision_root(), block.slot, self.validator_count);
        if block.proposer_index != expected {
            return Err(
                BlockError::IncorrectBlockProposer {
                    block: block.proposer_index,
                    local_shuffling: expected,
                },
            );
        }

        let current_epoch = self.current_epoch();
        let mut i: usize = 0;
        let ghost orig_curr = self.curr_epoch_attesters as int;
        let ghost orig_prev = self.prev_epoch_attesters as int;
        let atts = &block.attestations;
        while i < atts.len()
            invariant
                self.validator_count == old(self).validator_count,
                self.curr_epoch_attesters <= self.validator_count,
                self.prev_epoch_attesters <= self.validator_count,
                1 <= self.validator_count <= MAX_VALIDATORS,
                current_epoch == old(self).spec_current_epoch(),
                i <= atts@.len(),
                atts@ == block.attestations@,
                self.curr_epoch_attesters as int == vstd::math::min(
                    self.validator_count as int,
                    orig_curr + spec_attesters_for_epoch(
                        atts@.subrange(0, i as int),
                        current_epoch,
                    ),
                ),
                self.prev_epoch_attesters as int == (if current_epoch >= 1 {
                    vstd::math::min(
                        self.validator_count as int,
                        orig_prev + spec_attesters_for_epoch(
                            atts@.subrange(0, i as int),
                            (current_epoch - 1) as u64,
                        ),
                    )
                } else {
                    orig_prev
                }),
                orig_curr <= self.validator_count,
                orig_prev <= self.validator_count,
                *self == (StateSummary {
                    curr_epoch_attesters: self.curr_epoch_attesters,
                    prev_epoch_attesters: self.prev_epoch_attesters,
                    ..*old(self)
                }),
            decreases atts@.len() - i,
        {
            let a = &atts[i];
            proof {
                assert(atts@.subrange(0, i + 1 as int).drop_last() == atts@.subrange(0, i as int));
                assert(atts@.subrange(0, i + 1 as int).last() == atts@[i as int]);
            }
            let n = a.attesting_indices.len() as u64;
            if a.data.target.epoch == current_epoch {
                if n >= self.validator_count || self.curr_epoch_attesters >= self.validator_count
                    - n {
                    self.curr_epoch_attesters = self.validator_count;
                } else {
                    self.curr_epoch_attesters = self.curr_epoch_attesters + n;
                }
            } else if current_epoch >= 1 && a.data.target.epoch == current_epoch - 1 {
                if n >= self.validator_count || self.prev_epoch_attesters >= self.validator_count
                    - n {
                    self.prev_epoch_attesters = self.validator_count;
                } else {
                    self.prev_epoch_attesters = self.prev_epoch_attesters + n;
                }
            }
            i = i + 1;
        }
        proof {
            assert(atts@.subrange(0, atts@.len() as int) == atts@);
            lemma_attesters_abs(atts@, current_epoch);
            if current_epoch >= 1 {
                lemma_attesters_abs(atts@, (current_epoch - 1) as u64);
            }
        }

        self.latest_block_root = block.root;
        self.current_state_root = block.state_root;
        self.randao = self.randao ^ block.randao;
        proof {
            assert(self@ == old(self)@.apply(block@));
        }
        Ok(())
    }
}

/// Well-formedness depends only on the mathematical value, so it carries
/// across copies.
pub proof fn lemma_wf_from_view(a: StateSummary, b: StateSummary)
    requires
        a@ == b@,
        a.wf(),
    ensures
        b.wf(),
{
    assert(a.slot == b.slot);
    assert(a.block_roots@ == b.block_roots@);
    assert(a.state_roots@ == b.state_roots@);
    assert(a.validator_count == b.validator_count);
    assert(a.prev_epoch_attesters == b.prev_epoch_attesters);
    assert(a.curr_epoch_attesters == b.curr_epoch_attesters);
    assert(a.finalized == b.finalized);
    assert(a.previous_justified == b.previous_justified);
    assert(a.current_justified == b.current_justified);
}

/// Number of attesters recorded by a sequence of attestation values whose
/// target epoch is `epoch`.
pub open spec fn spec_attesters_abs(atts: Seq<crate::block::AttestationAbs>, epoch: u64) -> int
    decreases atts.len(),
{
    if atts.len() == 0 {
        0
    } else {
        spec_attesters_abs(atts.drop_last(), epoch) + if atts.last().data.target.epoch == epoch {
            atts.last().attesting_indices.len() as int
        } else {
            0
        }
    }
}

/// Counting attesters agrees between a vector of attestations and its
/// mathematical value.
pub proof fn lemma_attesters_abs(atts: Seq<Attestation>, epoch: u64)
    ensures
        spec_attesters_abs(crate::block::atts_abs(atts), epoch) == spec_attesters_for_epoch(
            atts,
            epoch,
        ),
    decreases atts.len(),
{
    if atts.len() > 0 {
        lemma_attesters_abs(atts.drop_last(), epoch);
        assert(crate::block::atts_abs(atts).drop_last() =~= crate::block::atts_abs(
            atts.drop_last(),
        ));
        assert(crate::block::atts_abs(atts).last() == atts.last()@);
    }
}

impl StateAbs {
    /// Fallback decision root when the previous epoch pre-dates the chain.
    pub open spec fn fallback_root(self) -> u64 {
        if self.block_roots.len() > 0 {
            self.block_roots[0]
        } else {
            self.latest_block_root
        }
    }

    /// Decision root of the proposer shuffling for the current epoch.
    pub open spec fn proposer_decision_root(self) -> u64 {
        let e = spec_epoch_of(self.slot);
        if spec_start_slot(e) == 0 || spec_start_slot(e) > self.slot {
            self.fallback_root()
        } else {
            let ds = spec_start_slot(e) - 1;
            if ds < self.block_roots.len() {
                self.block_roots[ds]
            } else {
                self.latest_block_root
            }
        }
    }

    /// Whether advancing past `self.slot` crosses an epoch boundary.
    pub open spec fn boundary_next(self) -> bool {
        ((self.slot + 1) as u64) % SLOTS_PER_EPOCH == 0
    }

    /// Root of the derived state produced when a slot is skipped.
    pub open spec fn skip_root(self) -> u64 {
        (self.current_state_root ^ SKIP_ROOT_SALT) ^ ((self.slot + 1) as u64)
    }

    /// Checkpoints after the boundary ending `epoch_of(self.slot)`.
    pub open spec fn boundary_checkpoints(self) -> (Checkpoint, Checkpoint, Checkpoint) {
        let completed = spec_epoch_of(self.slot);
        let old_cj = self.current_justified;
        if self.curr_epoch_attesters * 3 >= self.validator_count * 2 {
            let boundary_slot = spec_start_slot(completed);
            let root = if boundary_slot < self.block_roots.len() {
                self.block_roots[boundary_slot]
            } else {
                self.latest_block_root
            };
            let new_cj = Checkpoint { epoch: completed, root };
            let new_fin = if old_cj.epoch + 1 == completed {
                old_cj
            } else {
                self.finalized
            };
            (old_cj, new_cj, new_fin)
        } else {
            (self.current_justified, self.current_justified, self.finalized)
        }
    }

    /// One per-slot transition step: the mathematical mirror of
    /// `StateSummary::advance_slot`.
    pub open spec fn step(self, cs: ChainSpec, compute_state_roots: bool) -> StateAbs {
        let boundary = self.boundary_next();
        let cps = self.boundary_checkpoints();
        StateAbs {
            slot: (self.slot + 1) as u64,
            genesis_time: self.genesis_time,
            genesis_validators_root: self.genesis_validators_root,
            fork_version: cs.spec_fork_version_at_epoch(spec_epoch_of((self.slot + 1) as u64)),
            validator_count: self.validator_count,
            randao: self.randao,
            block_roots: self.block_roots.push(self.latest_block_root),
            state_roots: self.state_roots.push(self.current_state_root),
            latest_block_root: self.latest_block_root,
            current_state_root: if compute_state_roots {
                self.skip_root()
            } else {
                0u64
            },
            previous_justified: if boundary {
                cps.0
            } else {
                self.previous_justified
            },
            current_justified: if boundary {
                cps.1
            } else {
                self.current_justified
            },
            finalized: if boundary {
                cps.2
            } else {
                self.finalized
            },
            prev_epoch_attesters: if boundary {
                self.curr_epoch_attesters
            } else {
                self.prev_epoch_attesters
            },
            curr_epoch_attesters: if boundary {
                0u64
            } else {
                self.curr_epoch_attesters
            },
        }
    }

    /// The state after `n` per-slot transition steps.
    pub open spec fn advanced(self, cs: ChainSpec, n: nat, compute_state_roots: bool) -> StateAbs
        decreases n,
    {
        if n == 0 {
            self
        } else {
            self.advanced(cs, (n - 1) as nat, compute_state_roots).step(cs, compute_state_roots)
        }
    }

    /// Block root recorded for `slot` within the historical window.
    pub open spec fn block_root_at(self, slot: u64) -> Option<u64> {
        if slot < self.slot && slot + SLOTS_PER_HISTORICAL_ROOT >= self.slot {
            Some(self.block_roots[slot as int])
        } else {
            None
        }
    }

    /// Whether a block passes the transition checks against this state.
    pub open spec fn block_applies(self, b: crate::block::BlockAbs) -> bool {
        &&& b.parent_root == self.latest_block_root
        &&& b.fork_version == self.fork_version
        &&& b.proposer_index == spec_proposer_for(
            self.proposer_decision_root(),
            b.slot,
            self.validator_count,
        )
    }

    /// The state after applying a block that passes the checks: the
    /// mathematical mirror of `StateSummary::apply_block`.
    pub open spec fn apply(self, b: crate::block::BlockAbs) -> StateAbs {
        let cur = spec_epoch_of(self.slot);
        StateAbs {
            latest_block_root: b.root,
            current_state_root: b.state_root,
            randao: self.randao ^ b.randao,
            curr_epoch_attesters: vstd::math::min(
                self.validator_count as int,
                self.curr_epoch_attesters + spec_attesters_abs(b.attestations, cur),
            ) as u64,
            prev_epoch_attesters: if cur >= 1 {
                vstd::math::min(
                    self.validator_count as int,
                    self.prev_epoch_attesters + spec_attesters_abs(
                        b.attestations,
                        (cur - 1) as u64,
                    ),
                ) as u64
            } else {
                self.prev_epoch_attesters
            },
            ..self
        }
    }
}

} // verus!
