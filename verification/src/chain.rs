//! The chain engine: block import and validation pipeline, fork-choice
//! head selection with re-org detection, attestation production, proposer
//! preparation and the execution-engine synchronization protocol.
//!
//! The engine owns its collaborator models — storage, fork choice, caches,
//! pools and the local view of the execution layer — as injected service
//! objects. Outbound work (notifying the execution engine, emitting
//! events, requesting shutdown) is recorded in ordered queues; the response
//! of the execution engine is handed back as a value.

use vstd::prelude::*;
use crate::primitives::{Checkpoint, ExecutionStatus, SLOTS_PER_EPOCH, SLOTS_PER_HISTORICAL_ROOT, EARLY_ATTESTER_CACHE_HISTORIC_SLOTS, PREPARE_PROPOSER_HISTORIC_EPOCHS, spec_epoch_of, spec_start_slot};
use crate::errors::{BlockError, ChainError, BlockProductionError, StoreError};
use crate::block::{Attestation, AttestationData, BlockSummary, atts_abs};
use crate::state::{ChainSpec, ChainConfig, StateSummary, MAX_SLOT, proposer_for, spec_proposer_for};
use crate::fork_choice::{ForkChoice, ProtoNode, Vote, InvalidationOperation, spec_head_index, spec_status_after, spec_is_ancestor};
use crate::store::{Store, StoreOp};
use crate::head_tracker::{HeadTracker, spec_tracks};
use crate::caches::{ShufflingCache, AttesterCache, EarlyAttesterCache, EarlyAttesterEntry, BeaconProposerCache, BlockTimesCache, Committees, compute_committees, Proposer};
use crate::observed::{PairSet, WordSet, DataSet, ObservationOutcome};
use crate::pool::{NaiveAggregationPool, SyncContributionPool, OperationPool, SyncContributionData, PoolError};

verus! {

/// A `(block, block root, state)` triple: the chain at a specific block.
pub struct BeaconSnapshot {
    pub beacon_block: BlockSummary,
    pub beacon_block_root: u64,
    pub beacon_state: StateSummary,
}

/// A condensed, cheaply-copyable summary of the head snapshot.
#[derive(Clone, Copy, PartialEq, Eq, Structural, Debug)]
pub struct HeadInfo {
    pub slot: u64,
    pub block_root: u64,
    pub state_root: u64,
    pub current_justified_checkpoint: Checkpoint,
    pub finalized_checkpoint: Checkpoint,
    pub fork: u64,
    pub genesis_time: u64,
    pub genesis_validators_root: u64,
    pub proposer_shuffling_decision_root: u64,
    pub is_merge_transition_complete: bool,
    pub execution_payload_block_hash: Option<u64>,
    pub random: u64,
}

/// How a state should be advanced through skipped slots.
#[derive(Clone, Copy, PartialEq, Eq, Structural, Debug)]
pub enum StateSkipConfig {
    /// Compute the state root at each skipped slot: slower, fully valid.
    WithStateRoots,
    /// Zero the state roots of skipped slots: much faster, and enough for
    /// consumers that only read the shuffling.
    WithoutStateRoots,
}

/// Behaviour when a block or block root for a skipped slot is requested.
#[derive(Clone, Copy, PartialEq, Eq, Structural, Debug)]
pub enum WhenSlotSkipped {
    /// Return nothing for a skipped slot.
    NoBlock,
    /// Return the previous non-skipped block for a skipped slot.
    Prev,
}

/// The result of processing a chain segment.
pub enum ChainSegmentResult {
    /// Every relevant block of the segment was imported.
    Successful { imported_blocks: usize },
    /// An error stopped the segment; the blocks before it stayed imported.
    Failed { imported_blocks: usize, error: BlockError },
}

impl ChainSegmentResult {
    /// Collapse to the error, discarding the count.
    pub fn into_block_error(self) -> (r: Result<(), BlockError>)
        ensures
            match self {
                ChainSegmentResult::Successful { .. } => r is Ok,
                ChainSegmentResult::Failed { error, .. } => r == Err::<(), BlockError>(error),
            },
    {
        match self {
            ChainSegmentResult::Failed { error, .. } => Err(error),
            ChainSegmentResult::Successful { .. } => Ok(()),
        }
    }
}

/// Configures randao verification of produced blocks.
#[derive(Clone, Copy, PartialEq, Eq, Structural, Debug)]
pub enum ProduceBlockVerification {
    VerifyRandao,
    NoVerification,
}

/// Payload-validity status of the head block.
#[derive(Clone, Copy, PartialEq, Eq, Structural, Debug)]
pub enum HeadSafetyStatus {
    /// Confirmed valid, or no confirmation required.
    Safe(Option<u64>),
    /// Not yet confirmed by an execution engine.
    Unsafe(u64),
    /// Rejected by an execution engine.
    Invalid(u64),
}

/// Verification state of a block's payload at import time.
#[derive(Clone, Copy, PartialEq, Eq, Structural, Debug)]
pub enum PayloadVerificationStatus {
    /// The execution engine confirmed the payload before import.
    Verified,
    /// Imported without confirmation, pending a later ruling.
    Optimistic,
    /// The block carries no payload.
    Irrelevant,
}

/// Response of the execution engine to a fork-choice update.
#[derive(Clone, Copy, PartialEq, Eq, Structural, Debug)]
pub enum PayloadStatus {
    Valid,
    Syncing,
    Accepted,
    Invalid { latest_valid_hash: Option<u64> },
    InvalidTerminalBlock,
    InvalidBlockHash,
}

/// Reasons the engine may request a controlled shutdown.
#[derive(Clone, Copy, PartialEq, Eq, Structural, Debug)]
pub enum ShutdownReason {
    /// The finalized block carries an invalid execution payload.
    InvalidFinalizedPayload,
    /// The justified block carries an invalid execution payload.
    InvalidJustifiedPayload,
    /// The weak-subjectivity checkpoint did not match the imported chain.
    WeakSubjectivityFailure,
}

/// Fire-and-forget notifications for the event sink.
#[derive(Clone, Copy, PartialEq, Eq, Structural, Debug)]
pub enum EventKind {
    Block { slot: u64, block: u64 },
    Head { slot: u64, block: u64, state: u64, epoch_transition: bool },
    ChainReorg { slot: u64, depth: u64, old_head_block: u64, new_head_block: u64 },
    FinalizedCheckpoint { epoch: u64, block: u64, state: u64 },
    VoluntaryExit { validator_index: u64 },
    /// An attestation or aggregate accepted from gossip.
    Attestation { slot: u64, beacon_block_root: u64, validator_index: u64 },
    /// A sync-committee contribution accepted from gossip.
    ContributionAndProof { slot: u64, aggregator_index: u64 },
}

/// One ordered fork-choice update for the execution engine.
#[derive(Clone, Copy, PartialEq, Eq, Structural, Debug)]
pub struct ElUpdateRequest {
    pub head_block_root: u64,
    pub head_hash: u64,
    pub finalized_hash: u64,
    pub slot: u64,
}

/// Parameters handed to the execution engine ahead of a proposal.
#[derive(Clone, Copy, PartialEq, Eq, Structural, Debug)]
pub struct PayloadAttributes {
    pub timestamp: u64,
    pub prev_randao: u64,
    pub suggested_fee_recipient: u64,
}

/// The engine-local view of the execution layer: proposer registrations
/// and prepared payload attributes. The remote engine itself answers
/// through `PayloadStatus` values handed back by the caller.
pub struct ExecutionLayerView {
    /// `(validator index, suggested fee recipient)` registrations.
    pub proposer_preparation: Vec<(u64, u64)>,
    /// `(slot, head root, validator, attributes)` already submitted.
    pub prepared: Vec<(u64, u64, u64, PayloadAttributes)>,
}

impl ExecutionLayerView {
    /// An empty view.
    pub fn new() -> (v: ExecutionLayerView)
        ensures
            v.proposer_preparation@.len() == 0,
            v.prepared@.len() == 0,
    {
        ExecutionLayerView { proposer_preparation: Vec::new(), prepared: Vec::new() }
    }

    /// Whether any proposer registered preparation data.
    pub fn has_any_proposer_preparation_data(&self) -> (r: bool)
        ensures
            r == (self.proposer_preparation@.len() > 0),
    {
        self.proposer_preparation.len() > 0
    }

    /// The first fee recipient registered for a validator, if any.
    pub open spec fn spec_first_fee(prep: Seq<(u64, u64)>, validator: u64) -> Option<u64>
        decreases prep.len(),
    {
        if prep.len() == 0 {
            None
        } else if prep[0].0 == validator {
            Some(prep[0].1)
        } else {
            Self::spec_first_fee(prep.drop_first(), validator)
        }
    }

    /// The fee recipient registered for a validator, if any: the first
    /// registration wins.
    pub fn get_suggested_fee_recipient(&self, validator: u64) -> (r: Option<u64>)
        ensures
            r == Self::spec_first_fee(self.proposer_preparation@, validator),
    {
        proof {
            assert(self.proposer_preparation@.skip(0) =~= self.proposer_preparation@);
        }
        let mut k: usize = 0;
        while k < self.proposer_preparation.len()
            invariant
                k <= self.proposer_preparation@.len(),
                Self::spec_first_fee(self.proposer_preparation@, validator)
                    == Self::spec_first_fee(
                    self.proposer_preparation@.skip(k as int),
                    validator,
                ),
            decreases self.proposer_preparation@.len() - k,
        {
            proof {
                assert(self.proposer_preparation@.skip(k as int)[0]
                    == self.proposer_preparation@[k as int]);
                assert(self.proposer_preparation@.skip(k as int).drop_first()
                    =~= self.proposer_preparation@.skip(k as int + 1));
            }
            let e = self.proposer_preparation[k];
            if e.0 == validator {
                return Some(e.1);
            }
            k = k + 1;
        }
        proof {
            assert(self.proposer_preparation@.skip(self.proposer_preparation@.len() as int)
                =~= Seq::<(u64, u64)>::empty());
        }
        None
    }

    /// Register a proposer's fee recipient.
    pub fn update_proposer_preparation(&mut self, validator: u64, fee_recipient: u64)
        ensures
            final(self).proposer_preparation@ == old(self).proposer_preparation@.push(
                (validator, fee_recipient),
            ),
            final(self).prepared@ == old(self).prepared@,
    {
        self.proposer_preparation.push((validator, fee_recipient));
    }

    /// Record submitted payload-building parameters; reports whether the
    /// same `(slot, head root)` was already submitted.
    pub fn insert_proposer(
        &mut self,
        slot: u64,
        head_root: u64,
        validator: u64,
        attributes: PayloadAttributes,
    ) -> (already_known: bool)
        ensures
            final(self).proposer_preparation@ == old(self).proposer_preparation@,
            already_known == exists|k: int|
                0 <= k < old(self).prepared@.len() && (#[trigger] old(self).prepared@[k]).0
                    == slot && old(self).prepared@[k].1 == head_root,
            final(self).prepared@ == if already_known {
                old(self).prepared@
            } else {
                old(self).prepared@.push((slot, head_root, validator, attributes))
            },
    {
        let mut k: usize = 0;
        while k < self.prepared.len()
            invariant
                k <= self.prepared@.len(),
                forall|m: int|
                    0 <= m < k ==> !((#[trigger] self.prepared@[m]).0 == slot
                        && self.prepared@[m].1 == head_root),
            decreases self.prepared@.len() - k,
        {
            let e = self.prepared[k];
            if e.0 == slot && e.1 == head_root {
                return true;
            }
            k = k + 1;
        }
        self.prepared.push((slot, head_root, validator, attributes));
        false
    }
}

/// A block that passed the structural and timing gossip checks; safe to
/// re-broadcast, not yet imported.
pub struct GossipVerifiedBlock {
    pub block: BlockSummary,
    pub block_root: u64,
}

/// A block that passed the full state transition and descends from the
/// finalized block; ready for atomic import.
pub struct FullyVerifiedBlock {
    pub block: BlockSummary,
    pub block_root: u64,
    pub state: StateSummary,
    pub payload_verification_status: PayloadVerificationStatus,
}

/// The canonical-chain engine.
pub struct BeaconChain {
    pub spec: ChainSpec,
    pub config: ChainConfig,
    /// Storage collaborator (hot database).
    pub store: Store,
    /// Wall-clock slot, when the clock can be read.
    pub clock_slot: Option<u64>,
    /// Candidates for inclusion in produced blocks.
    pub op_pool: OperationPool,
    /// Naive aggregation pool for attestations.
    pub naive_aggregation_pool: NaiveAggregationPool,
    /// Naive aggregation pool for sync-committee messages.
    pub naive_sync_aggregation_pool: SyncContributionPool,
    /// Aggregate attestations already seen on gossip.
    pub observed_attestations: DataSet,
    /// `(epoch, validator)` seen attesting on gossip.
    pub observed_gossip_attesters: PairSet,
    /// `(epoch, validator)` seen attesting in blocks.
    pub observed_block_attesters: PairSet,
    /// `(epoch, validator)` seen aggregating.
    pub observed_aggregators: PairSet,
    /// `(slot, validator)` seen sending sync messages.
    pub observed_sync_contributors: PairSet,
    /// `(slot, validator)` seen aggregating sync contributions.
    pub observed_sync_aggregators: PairSet,
    /// `(slot, proposer)` seen proposing.
    pub observed_block_producers: PairSet,
    /// Validators whose voluntary exit was observed.
    pub observed_voluntary_exits: WordSet,
    /// Validators whose proposer slashing was observed.
    pub observed_proposer_slashings: WordSet,
    /// Validators whose attester slashing was observed.
    pub observed_attester_slashings: WordSet,
    /// The canonical head snapshot.
    pub canonical_head: BeaconSnapshot,
    pub genesis_block_root: u64,
    pub genesis_state_root: u64,
    pub genesis_validators_root: u64,
    /// The fork-choice structure.
    pub fork_choice: ForkChoice,
    /// All known chain tips.
    pub head_tracker: HeadTracker,
    /// Committee shuffling cache.
    pub shuffling_cache: ShufflingCache,
    /// Proposer shuffling cache.
    pub beacon_proposer_cache: BeaconProposerCache,
    /// `(epoch, shuffling seed)` to attestation-production values.
    pub attester_cache: AttesterCache,
    /// Attestable data of the most recent imported head.
    pub early_attester_cache: EarlyAttesterCache,
    /// Block-timing instrumentation.
    pub block_times_cache: BlockTimesCache,
    /// Roots rejected as pre-finalization.
    pub pre_finalization_block_cache: WordSet,
    /// Count of validator public keys ever seen.
    pub validator_pubkey_count: u64,
    /// Bytes included in produced blocks by default.
    pub graffiti: u64,
    /// Emitted fire-and-forget events, in order.
    pub events: Vec<EventKind>,
    /// Controlled-shutdown requests, in order.
    pub shutdown_requests: Vec<ShutdownReason>,
    /// Local view of the execution layer.
    pub el: ExecutionLayerView,
    /// Ordered fork-choice updates for the execution engine.
    pub el_updates: Vec<ElUpdateRequest>,
    /// Attestations forwarded to the slashing detector.
    pub slasher_feed: Vec<AttestationData>,
    /// Number of full proposer-duty computations performed.
    pub duty_computations: u64,
}

impl BeaconChain {
    /// The engine's structures are well-formed and the head is tracked by
    /// fork choice.
    pub open spec fn wf(self) -> bool {
        &&& self.fork_choice.wf()
        &&& self.head_tracker.wf()
        &&& self.canonical_head.beacon_state.wf()
        &&& self.canonical_head.beacon_block_root == self.canonical_head.beacon_block.root
        &&& self.naive_aggregation_pool.wf()
        &&& self.naive_sync_aggregation_pool.wf()
        &&& self.shuffling_cache.wf()
        &&& self.beacon_proposer_cache.wf()
        &&& self.observed_attestations.wf()
        &&& self.observed_gossip_attesters.wf()
        &&& self.observed_block_attesters.wf()
        &&& self.observed_aggregators.wf()
        &&& self.observed_sync_contributors.wf()
        &&& self.observed_sync_aggregators.wf()
        &&& self.observed_block_producers.wf()
        &&& self.observed_voluntary_exits.wf()
        &&& self.observed_proposer_slashings.wf()
        &&& self.observed_attester_slashings.wf()
        &&& self.pre_finalization_block_cache.wf()
        &&& forall|r: u64|
            self.store.states@.contains_key(r) ==> (#[trigger] self.store.states@[r]).wf()
        &&& forall|r: u64|
            self.store.blocks@.contains_key(r) ==> (#[trigger] self.store.blocks@[r]).root == r
        &&& forall|rt: u64| #[trigger]
            self.fork_choice.spec_contains(rt) ==> self.store.blocks@.contains_key(rt)
        &&& forall|rt: u64| #[trigger]
            self.fork_choice.spec_contains(rt) ==> self.store.states@.contains_key(
                self.fork_choice.spec_node_of(rt).state_root,
            )
        &&& self.store.persisted_fork_choice is Some
        &&& match self.store.persisted_fork_choice {
            Some(fc) => fc.wf() && (forall|rt: u64| #[trigger]
                fc.spec_contains(rt) ==> self.store.blocks@.contains_key(rt)) && (forall|rt: u64|
                #[trigger] fc.spec_contains(rt) ==> self.store.states@.contains_key(
                    fc.spec_node_of(rt).state_root,
                )),
            None => true,
        }
    }

    /// Build an engine whose chain holds exactly the genesis block.
    pub fn new_from_genesis(
        spec: ChainSpec,
        config: ChainConfig,
        validator_count: u64,
        genesis_time: u64,
        genesis_validators_root: u64,
        genesis_block: BlockSummary,
    ) -> (r: BeaconChain)
        requires
            1 <= validator_count <= crate::state::MAX_VALIDATORS,
            genesis_block.slot == 0,
            genesis_block.root != genesis_block.parent_root,
        ensures
            r.wf(),
            r.genesis_block_root == genesis_block.root,
            r.canonical_head.beacon_block_root == genesis_block.root,
            r.canonical_head.beacon_block@ == genesis_block@,
            r.canonical_head.beacon_state.slot == 0,
            r.canonical_head.beacon_state.finalized == (Checkpoint {
                epoch: 0u64,
                root: genesis_block.root,
            }),
            r.canonical_head.beacon_state.current_justified == (Checkpoint {
                epoch: 0u64,
                root: genesis_block.root,
            }),
            r.canonical_head.beacon_state.validator_count == validator_count,
            spec_tracks(r.head_tracker.heads@, genesis_block.root),
            r.head_tracker.heads@.len() == 1,
            r.head_tracker.heads@[0] == (genesis_block.root, 0u64),
            crate::head_tracker::spec_slot_of(r.head_tracker.heads@, genesis_block.root) == 0,
            r.store.blocks@.contains_key(genesis_block.root),
            r.fork_choice.spec_contains(genesis_block.root),
            r.clock_slot == Some(0u64),
            r.events@.len() == 0,
            r.shutdown_requests@.len() == 0,
    {
        let genesis_root = genesis_block.root;
        let genesis_state_root = genesis_block.state_root;
        let state = StateSummary::genesis(
            validator_count,
            genesis_time,
            genesis_validators_root,
            genesis_root,
            genesis_state_root,
            &spec,
        );
        let cp = Checkpoint { epoch: 0, root: genesis_root };
        let status = match genesis_block.payload_block_hash {
            Some(h) => ExecutionStatus::Valid(h),
            None => ExecutionStatus::Irrelevant,
        };
        let fork_choice = ForkChoice::from_anchor(
            genesis_root,
            0,
            genesis_state_root,
            cp,
            cp,
            status,
        );
        let mut tips: Vec<(u64, u64)> = Vec::new();
        tips.push((genesis_root, 0));
        let head_tracker = HeadTracker { heads: tips };
        proof {
            assert(head_tracker.heads@[0] == (genesis_root, 0u64));
            assert(spec_tracks(head_tracker.heads@, genesis_root));
        }
        let mut store = Store::new();
        let head_block = genesis_block.duplicate();
        let head_state = state.duplicate();
        store.put_block(genesis_block);
        store.put_state(genesis_state_root, state);
        // The anchor snapshot is durable from the start, so a failed
        // import always has a consistent snapshot to fall back to.
        store.persist_fork_choice(&fork_choice);
        BeaconChain {
            spec,
            config,
            store,
            clock_slot: Some(0),
            op_pool: OperationPool::new(),
            naive_aggregation_pool: NaiveAggregationPool::new(),
            naive_sync_aggregation_pool: SyncContributionPool::new(),
            observed_attestations: DataSet::new(),
            observed_gossip_attesters: PairSet::new(),
            observed_block_attesters: PairSet::new(),
            observed_aggregators: PairSet::new(),
            observed_sync_contributors: PairSet::new(),
            observed_sync_aggregators: PairSet::new(),
            observed_block_producers: PairSet::new(),
            observed_voluntary_exits: WordSet::new(),
            observed_proposer_slashings: WordSet::new(),
            observed_attester_slashings: WordSet::new(),
            canonical_head: BeaconSnapshot {
                beacon_block: head_block,
                beacon_block_root: genesis_root,
                beacon_state: head_state,
            },
            genesis_block_root: genesis_root,
            genesis_state_root,
            genesis_validators_root,
            fork_choice,
            head_tracker,
            shuffling_cache: ShufflingCache::new(),
            beacon_proposer_cache: BeaconProposerCache::new(),
            attester_cache: AttesterCache::new(),
            early_attester_cache: EarlyAttesterCache::new(),
            block_times_cache: BlockTimesCache::new(),
            pre_finalization_block_cache: WordSet::new(),
            validator_pubkey_count: validator_count,
            graffiti: 0,
            events: Vec::new(),
            shutdown_requests: Vec::new(),
            el: ExecutionLayerView::new(),
            el_updates: Vec::new(),
            slasher_feed: Vec::new(),
            duty_computations: 0,
        }
    }

    /// Move the wall clock to `slot`.
    pub fn set_slot(&mut self, slot: u64)
        ensures
            *final(self) == (BeaconChain { clock_slot: Some(slot), ..*old(self) }),
    {
        self.clock_slot = Some(slot);
    }

    /// The slot right now according to the clock; fails when the clock
    /// cannot be read.
    pub fn slot(&self) -> (r: Result<u64, ChainError>)
        ensures
            match r {
                Ok(s) => self.clock_slot == Some(s),
                Err(e) => self.clock_slot is None && e == ChainError::UnableToReadSlot,
            },
    {
        match self.clock_slot {
            Some(s) => Ok(s),
            None => Err(ChainError::UnableToReadSlot),
        }
    }

    /// The epoch right now according to the clock.
    pub fn epoch(&self) -> (r: Result<u64, ChainError>)
        ensures
            match r {
                Ok(e) => self.clock_slot is Some && e == spec_epoch_of(self.clock_slot->0),
                Err(e) => self.clock_slot is None && e == ChainError::UnableToReadSlot,
            },
    {
        match self.slot() {
            Ok(s) => Ok(s / SLOTS_PER_EPOCH),
            Err(e) => Err(e),
        }
    }

    /// A copy of the head snapshot.
    pub fn head(&self) -> (r: BeaconSnapshot)
        ensures
            r.beacon_block@ == self.canonical_head.beacon_block@,
            r.beacon_block_root == self.canonical_head.beacon_block_root,
            r.beacon_state@ == self.canonical_head.beacon_state@,
    {
        BeaconSnapshot {
            beacon_block: self.canonical_head.beacon_block.duplicate(),
            beacon_block_root: self.canonical_head.beacon_block_root,
            beacon_state: self.canonical_head.beacon_state.duplicate(),
        }
    }

    /// The root of the head block.
    pub fn head_beacon_block_root(&self) -> (r: u64)
        ensures
            r == self.canonical_head.beacon_block_root,
    {
        self.canonical_head.beacon_block_root
    }

    /// A copy of the head block.
    pub fn head_beacon_block(&self) -> (r: BlockSummary)
        ensures
            r@ == self.canonical_head.beacon_block@,
    {
        self.canonical_head.beacon_block.duplicate()
    }

    /// A copy of the head state.
    pub fn head_beacon_state(&self) -> (r: StateSummary)
        ensures
            r@ == self.canonical_head.beacon_state@,
    {
        self.canonical_head.beacon_state.duplicate()
    }

    /// The slot of the highest block in the canonical chain.
    pub fn best_slot(&self) -> (r: u64)
        ensures
            r == self.canonical_head.beacon_block.slot,
    {
        self.canonical_head.beacon_block.slot
    }

    /// The condensed head summary.
    pub fn head_info(&self) -> (r: HeadInfo)
        requires
            self.wf(),
        ensures
            r.slot == self.canonical_head.beacon_block.slot,
            r.block_root == self.canonical_head.beacon_block_root,
            r.state_root == self.canonical_head.beacon_state.current_state_root,
            r.current_justified_checkpoint
                == self.canonical_head.beacon_state.current_justified,
            r.finalized_checkpoint == self.canonical_head.beacon_state.finalized,
            r.fork == self.canonical_head.beacon_state.fork_version,
            r.genesis_time == self.canonical_head.beacon_state.genesis_time,
            r.genesis_validators_root
                == self.canonical_head.beacon_state.genesis_validators_root,
            r.proposer_shuffling_decision_root
                == self.canonical_head.beacon_state.spec_proposer_decision_root(),
            r.random == self.canonical_head.beacon_state.randao,
            r.execution_payload_block_hash
                == self.canonical_head.beacon_block.payload_block_hash,
            r.is_merge_transition_complete == (
            self.canonical_head.beacon_block.payload_block_hash is Some),
    {
        let state = &self.canonical_head.beacon_state;
        HeadInfo {
            slot: self.canonical_head.beacon_block.slot,
            block_root: self.canonical_head.beacon_block_root,
            state_root: state.current_state_root,
            current_justified_checkpoint: state.current_justified,
            finalized_checkpoint: state.finalized,
            fork: state.fork_version,
            genesis_time: state.genesis_time,
            genesis_validators_root: state.genesis_validators_root,
            proposer_shuffling_decision_root: state.proposer_decision_root(),
            is_merge_transition_complete: match self.canonical_head.beacon_block.payload_block_hash {
                Some(_) => true,
                None => false,
            },
            execution_payload_block_hash: self.canonical_head.beacon_block.payload_block_hash,
            random: state.randao,
        }
    }

    /// All current chain tips as `(root, slot)` pairs.
    pub fn heads(&self) -> (r: Vec<(u64, u64)>)
        ensures
            r@ == self.head_tracker.heads@,
    {
        self.head_tracker.heads()
    }

    /// Whether the given root is a known chain tip.
    pub fn knows_head(&self, block_root: u64) -> (r: bool)
        ensures
            r == spec_tracks(self.head_tracker.heads@, block_root),
    {
        self.head_tracker.contains_head(block_root)
    }

    /// The stored block with this root, if any.
    pub fn get_blinded_block(&self, block_root: u64) -> (r: Option<BlockSummary>)
        ensures
            match r {
                Some(b) => self.store.blocks@.contains_key(block_root) && b@
                    == self.store.blocks@[block_root]@,
                None => !self.store.blocks@.contains_key(block_root),
            },
    {
        self.store.get_block(block_root)
    }

    /// The stored block with this root, if any. In the model every stored
    /// block is full, so no payload reconstruction is needed.
    pub fn get_block(&self, block_root: u64) -> (r: Option<BlockSummary>)
        ensures
            match r {
                Some(b) => self.store.blocks@.contains_key(block_root) && b@
                    == self.store.blocks@[block_root]@,
                None => !self.store.blocks@.contains_key(block_root),
            },
    {
        self.store.get_block(block_root)
    }

    /// The block for this root, also consulting the early attester cache.
    pub fn get_block_checking_early_attester_cache(&self, block_root: u64) -> (r: Option<
        BlockSummary,
    >)
        ensures
            match r {
                Some(b) => b.root == block_root || (self.store.blocks@.contains_key(block_root)
                    && b@ == self.store.blocks@[block_root]@),
                None => !self.store.blocks@.contains_key(block_root),
            },
    {
        match self.early_attester_cache.get_block(block_root) {
            Some(b) => Some(b),
            None => self.get_block(block_root),
        }
    }

    /// The stored state with this root, if any.
    pub fn get_state(&self, state_root: u64) -> (r: Option<StateSummary>)
        ensures
            match r {
                Some(st) => self.store.states@.contains_key(state_root) && st@
                    == self.store.states@[state_root]@,
                None => !self.store.states@.contains_key(state_root),
            },
    {
        self.store.get_state(state_root)
    }

    /// The queue of controlled-shutdown requests.
    pub fn shutdown_sender(&self) -> (r: Vec<ShutdownReason>)
        ensures
            r@ == self.shutdown_requests@,
    {
        let mut r: Vec<ShutdownReason> = Vec::new();
        let mut k: usize = 0;
        while k < self.shutdown_requests.len()
            invariant
                k <= self.shutdown_requests@.len(),
                r@ == self.shutdown_requests@.subrange(0, k as int),
            decreases self.shutdown_requests@.len() - k,
        {
            r.push(self.shutdown_requests[k]);
            k = k + 1;
        }
        proof {
            assert(self.shutdown_requests@.subrange(0, self.shutdown_requests@.len() as int)
                == self.shutdown_requests@);
        }
        r
    }

    /// Whether attestations were seen from the validator at the epoch, in
    /// any of the observation caches.
    pub fn validator_seen_at_epoch(&self, validator_index: u64, epoch: u64) -> (r: bool)
        ensures
            r == (self.observed_gossip_attesters.seen@.contains((epoch, validator_index))
                || self.observed_block_attesters.seen@.contains((epoch, validator_index))
                || self.observed_aggregators.seen@.contains((epoch, validator_index))
                || self.observed_block_producers.seen@.contains((epoch, validator_index))),
    {
        let gossip_attested = self.observed_gossip_attesters.contains(epoch, validator_index);
        let block_attested = self.observed_block_attesters.contains(epoch, validator_index);
        let aggregated = self.observed_aggregators.contains(epoch, validator_index);
        let produced_block = self.observed_block_producers.contains(epoch, validator_index);
        gossip_attested || block_attested || aggregated || produced_block
    }
}

impl BeaconChain {
    /// Whether the configured weak-subjectivity checkpoint agrees with a
    /// chain state, over the state's mathematical value.
    pub open spec fn spec_wss_ok_abs(wss: Checkpoint, st: crate::state::StateAbs) -> bool {
        if wss.epoch == st.finalized.epoch {
            wss.root == st.finalized.root
        } else if wss.epoch < st.finalized.epoch {
            st.block_root_at((wss.epoch * SLOTS_PER_EPOCH) as u64) == Some(wss.root)
        } else {
            true
        }
    }

    /// The first failing structural or timing gossip check for a block,
    /// if any: wrong fork encoding, unreadable clock, future slot, an
    /// already-known root, the genesis block, a finalized slot, or an
    /// unknown parent — in that order.
    pub open spec fn spec_gossip_check(self, block: BlockSummary) -> Option<BlockError> {
        if block.fork_version != self.spec.spec_fork_version_at_epoch(spec_epoch_of(block.slot)) {
            Some(BlockError::InconsistentFork)
        } else if self.clock_slot is None {
            Some(BlockError::BeaconChainError(ChainError::UnableToReadSlot))
        } else if block.slot > self.clock_slot->0 {
            Some(
                BlockError::FutureSlot {
                    present_slot: self.clock_slot->0,
                    block_slot: block.slot,
                },
            )
        } else if self.fork_choice.spec_contains(block.root) {
            Some(BlockError::BlockIsAlreadyKnown)
        } else if block.root == self.genesis_block_root {
            Some(BlockError::GenesisBlock)
        } else if block.slot <= self.spec_finalized_slot() {
            Some(
                BlockError::WouldRevertFinalizedSlot {
                    block_slot: block.slot,
                    finalized_slot: self.spec_finalized_slot() as u64,
                },
            )
        } else if !self.fork_choice.spec_contains(block.parent_root) {
            Some(BlockError::ParentUnknown { parent_root: block.parent_root })
        } else {
            None
        }
    }

    /// The fork-choice node of a block's parent.
    pub open spec fn spec_parent_node(self, block: BlockSummary) -> ProtoNode {
        self.fork_choice.spec_node_of(block.parent_root)
    }

    /// The stored post-state of a block's parent.
    pub open spec fn spec_parent_state(self, block: BlockSummary) -> crate::state::StateAbs {
        self.store.states@[self.spec_parent_node(block).state_root]@
    }

    /// The parent state advanced through skipped slots to the block's
    /// slot: the state the transition runs the block against.
    pub open spec fn spec_pre_state(self, block: BlockSummary) -> crate::state::StateAbs {
        self.spec_parent_state(block).advanced(
            self.spec,
            (block.slot - self.spec_parent_state(block).slot) as nat,
            true,
        )
    }

    /// The first failure of full verification for a gossip-verified
    /// block, if any: an invalidated parent payload, not descending from
    /// the finalized block, a slot out of the model's range, a slot not
    /// after the parent, or a failing transition check — in that order.
    pub open spec fn spec_full_check(self, block: BlockSummary) -> Option<BlockError> {
        let parent = self.spec_parent_node(block);
        if parent.execution_status is Invalid {
            Some(BlockError::ParentExecutionPayloadInvalid { parent_root: block.parent_root })
        } else if !spec_is_ancestor(
            self.fork_choice.nodes@,
            self.fork_choice.index_of@[self.fork_choice.finalized_checkpoint.root] as int,
            self.fork_choice.index_of@[block.parent_root] as int,
        ) {
            Some(BlockError::NotFinalizedDescendant { block_parent_root: block.parent_root })
        } else if block.slot >= MAX_SLOT {
            Some(BlockError::BeaconChainError(ChainError::ArithmeticOverflow))
        } else if self.spec_parent_state(block).slot >= block.slot {
            Some(BlockError::StateTransitionError)
        } else {
            let pre = self.spec_pre_state(block);
            if block.parent_root != pre.latest_block_root {
                Some(BlockError::StateTransitionError)
            } else if block.fork_version != pre.fork_version {
                Some(BlockError::InconsistentFork)
            } else if block.proposer_index != crate::state::spec_proposer_for(
                pre.proposer_decision_root(),
                block.slot,
                pre.validator_count,
            ) {
                Some(
                    BlockError::IncorrectBlockProposer {
                        block: block.proposer_index,
                        local_shuffling: crate::state::spec_proposer_for(
                            pre.proposer_decision_root(),
                            block.slot,
                            pre.validator_count,
                        ),
                    },
                )
            } else {
                None
            }
        }
    }

    /// Whether a fully-verified block's import crosses the configured
    /// weak-subjectivity checkpoint and contradicts it.
    pub open spec fn spec_wss_conflict(self, post_state: crate::state::StateAbs) -> bool {
        match self.config.weak_subjectivity_checkpoint {
            Some(w) => self.fork_choice.finalized_checkpoint.epoch < w.epoch && w.epoch
                <= post_state.finalized.epoch && !Self::spec_wss_ok_abs(w, post_state),
            None => false,
        }
    }

    /// Slot at which the chain is finalized: the first slot of the
    /// finalized epoch of the head state.
    pub open spec fn spec_finalized_slot(self) -> int {
        spec_start_slot(self.canonical_head.beacon_state.finalized.epoch)
    }

    /// Executable form of `spec_finalized_slot`.
    pub fn finalized_slot(&self) -> (s: u64)
        requires
            self.wf(),
        ensures
            s == self.spec_finalized_slot(),
    {
        proof {
            assert(self.canonical_head.beacon_state.finalized.epoch < MAX_SLOT);
        }
        self.canonical_head.beacon_state.finalized.epoch * SLOTS_PER_EPOCH
    }

    /// Whether the block is still worth importing: not already known, not
    /// the genesis block, and not at or before the finalized slot.
    pub fn check_block_relevancy(&self, block: &BlockSummary, block_root: u64) -> (r: Result<
        (),
        BlockError,
    >)
        requires
            self.wf(),
        ensures
            r is Ok <==> (!self.fork_choice.spec_contains(block_root) && block_root
                != self.genesis_block_root && block.slot > self.spec_finalized_slot()),
            match r {
                Ok(()) => true,
                Err(e) => e == (if self.fork_choice.spec_contains(block_root) {
                    BlockError::BlockIsAlreadyKnown
                } else if block_root == self.genesis_block_root {
                    BlockError::GenesisBlock
                } else {
                    BlockError::WouldRevertFinalizedSlot {
                        block_slot: block.slot,
                        finalized_slot: self.spec_finalized_slot() as u64,
                    }
                }),
            },
    {
        if self.fork_choice.contains_block(block_root) {
            return Err(BlockError::BlockIsAlreadyKnown);
        }
        if block_root == self.genesis_block_root {
            return Err(BlockError::GenesisBlock);
        }
        let finalized_slot = self.finalized_slot();
        if block.slot <= finalized_slot {
            return Err(
                BlockError::WouldRevertFinalizedSlot { block_slot: block.slot, finalized_slot },
            );
        }
        Ok(())
    }

    /// Structural and timing gossip checks: correct fork encoding for the
    /// slot, not from the future, still relevant, and with a known parent.
    /// On success the block may be re-broadcast; it is not yet imported.
    pub fn verify_block_for_gossip(&self, block: BlockSummary) -> (r: Result<
        GossipVerifiedBlock,
        BlockError,
    >)
        requires
            self.wf(),
        ensures
            r is Ok <==> self.spec_gossip_check(block) is None,
            match r {
                Ok(gv) => {
                    &&& gv.block@ == block@
                    &&& gv.block_root == block.root
                    &&& self.clock_slot is Some && block.slot <= self.clock_slot->0
                    &&& !self.fork_choice.spec_contains(block.root)
                    &&& block.root != self.genesis_block_root
                    &&& block.slot > self.spec_finalized_slot()
                    &&& self.fork_choice.spec_contains(block.parent_root)
                },
                Err(e) => e == self.spec_gossip_check(block)->0,
            },
    {
        if block.fork_version != self.spec.fork_version_at_epoch(block.slot / SLOTS_PER_EPOCH) {
            return Err(BlockError::InconsistentFork);
        }
        let present_slot = match self.slot() {
            Ok(s) => s,
            Err(e) => {
                return Err(BlockError::BeaconChainError(e));
            },
        };
        if block.slot > present_slot {
            return Err(BlockError::FutureSlot { present_slot, block_slot: block.slot });
        }
        let block_root = block.root;
        match self.check_block_relevancy(&block, block_root) {
            Ok(()) => {},
            Err(e) => {
                return Err(e);
            },
        }
        if !self.fork_choice.contains_block(block.parent_root) {
            return Err(BlockError::ParentUnknown { parent_root: block.parent_root });
        }
        Ok(GossipVerifiedBlock { block, block_root })
    }

    /// Full verification: execute the state transition against the parent
    /// state advanced to the block's slot, and check descent from the
    /// finalized block. The payload-verification status is `Optimistic`
    /// for any block carrying a payload, pending the engine's ruling.
    pub fn into_fully_verified_block(&self, gossip_verified: GossipVerifiedBlock) -> (r: Result<
        FullyVerifiedBlock,
        BlockError,
    >)
        requires
            self.wf(),
            self.fork_choice.spec_contains(gossip_verified.block.parent_root),
            gossip_verified.block_root == gossip_verified.block.root,
        ensures
            r is Ok <==> self.spec_full_check(gossip_verified.block) is None,
            match r {
                Ok(fv) => {
                    &&& fv.block@ == gossip_verified.block@
                    &&& fv.block_root == gossip_verified.block.root
                    &&& fv.state.wf()
                    &&& fv.state@ == self.spec_pre_state(gossip_verified.block).apply(
                        gossip_verified.block@,
                    )
                    &&& fv.state.slot == fv.block.slot
                    &&& fv.state.latest_block_root == fv.block.root
                    &&& fv.state.current_state_root == fv.block.state_root
                    &&& !(self.fork_choice.spec_node_of(
                        gossip_verified.block.parent_root,
                    ).execution_status is Invalid)
                    &&& spec_is_ancestor(
                        self.fork_choice.nodes@,
                        self.fork_choice.index_of@[self.fork_choice.finalized_checkpoint.root] as int,
                        self.fork_choice.index_of@[gossip_verified.block.parent_root] as int,
                    )
                    &&& fv.state.finalized.epoch >= self.store.states@[self.fork_choice.spec_node_of(
                        gossip_verified.block.parent_root,
                    ).state_root].finalized.epoch
                    &&& fv.payload_verification_status == (match fv.block.payload_block_hash {
                        Some(_) => PayloadVerificationStatus::Optimistic,
                        None => PayloadVerificationStatus::Irrelevant,
                    })
                    &&& fv.block.slot < MAX_SLOT
                },
                Err(e) => e == self.spec_full_check(gossip_verified.block)->0,
            },
    {
        let block = gossip_verified.block;
        let block_root = gossip_verified.block_root;
        let parent_node = match self.fork_choice.get_block(block.parent_root) {
            Some(node) => node,
            None => {
                return Err(BlockError::ParentUnknown { parent_root: block.parent_root });
            },
        };
        if parent_node.execution_status.is_invalid() {
            return Err(
                BlockError::ParentExecutionPayloadInvalid { parent_root: block.parent_root },
            );
        }
        if !self.fork_choice.is_ancestor_root(
            self.fork_choice.finalized_checkpoint.root,
            block.parent_root,
        ) {
            return Err(BlockError::NotFinalizedDescendant { block_parent_root: block.parent_root });
        }
        let mut state = match self.store.get_state(parent_node.state_root) {
            Some(st) => st,
            None => {
                // Unreachable: every tracked block's post-state is
                // stored, by the engine's invariant.
                proof {
                    assert(false);
                }
                return Err(
                    BlockError::BeaconChainError(
                        ChainError::MissingBeaconState { state_root: parent_node.state_root },
                    ),
                );
            },
        };
        proof {
            crate::state::lemma_wf_from_view(
                self.store.states@[parent_node.state_root],
                state,
            );
        }
        if block.slot >= MAX_SLOT {
            return Err(BlockError::BeaconChainError(ChainError::ArithmeticOverflow));
        }
        if state.slot >= block.slot {
            return Err(BlockError::StateTransitionError);
        }
        let ghost parent_abs = self.spec_parent_state(gossip_verified.block);
        let ghost parent_fin_epoch = state.finalized.epoch;
        while state.slot < block.slot
            invariant
                state.wf(),
                state.slot <= block.slot,
                block.slot < MAX_SLOT,
                parent_abs == self.spec_parent_state(gossip_verified.block),
                parent_abs.slot <= state.slot,
                state@ == parent_abs.advanced(
                    self.spec,
                    (state.slot - parent_abs.slot) as nat,
                    true,
                ),
                state.finalized.epoch >= parent_fin_epoch,
                state.latest_block_root == self.store.states@[self.fork_choice.spec_node_of(
                    gossip_verified.block.parent_root,
                ).state_root].latest_block_root,
                state.current_justified.epoch >= state.finalized.epoch,
            decreases block.slot - state.slot,
        {
            proof {
                assert(state.current_justified.epoch >= state.finalized.epoch);
            }
            state.advance_slot(&self.spec, true);
        }
        proof {
            assert(state@ == self.spec_pre_state(gossip_verified.block));
        }
        let ghost pre_dup = state;
        match state.apply_block(&block, &self.spec) {
            Ok(()) => {
                proof {
                    assert(pre_dup.spec_proposer_decision_root() == self.spec_pre_state(
                        gossip_verified.block,
                    ).proposer_decision_root());
                    assert(self.spec_full_check(gossip_verified.block) is None);
                }
            },
            Err(e) => {
                proof {
                    assert(pre_dup.spec_proposer_decision_root() == self.spec_pre_state(
                        gossip_verified.block,
                    ).proposer_decision_root());
                    assert(self.spec_full_check(gossip_verified.block) == Some(e));
                }
                return Err(e);
            },
        }
        let payload_verification_status = match block.payload_block_hash {
            Some(_) => PayloadVerificationStatus::Optimistic,
            None => PayloadVerificationStatus::Irrelevant,
        };
        Ok(FullyVerifiedBlock { block, block_root, state, payload_verification_status })
    }
}

/// The execution status a block enters fork choice with.
pub open spec fn spec_import_status(
    pvs: PayloadVerificationStatus,
    payload_block_hash: Option<u64>,
) -> ExecutionStatus {
    match pvs {
        PayloadVerificationStatus::Irrelevant => ExecutionStatus::Irrelevant,
        PayloadVerificationStatus::Verified => ExecutionStatus::Valid(payload_block_hash->0),
        PayloadVerificationStatus::Optimistic => ExecutionStatus::Optimistic(
            payload_block_hash->0,
        ),
    }
}

/// The attestation-data sequence carried by a block's attestations, in
/// block order.
pub open spec fn spec_att_datas(atts: Seq<crate::block::AttestationAbs>) -> Seq<AttestationData> {
    atts.map_values(|a: crate::block::AttestationAbs| a.data)
}

/// The vote table after one validator records a `(root, epoch)` vote: the
/// table grows on demand and keeps the vote only when its epoch is
/// strictly newer than the one already tracked.
pub open spec fn spec_vote_upsert(
    votes: Seq<Option<Vote>>,
    validator: int,
    root: u64,
    epoch: u64,
) -> Seq<Option<Vote>> {
    let padded = if votes.len() >= validator + 1 {
        votes
    } else {
        votes + Seq::new((validator + 1 - votes.len()) as nat, |k: int| None::<Vote>)
    };
    padded.update(
        validator,
        match padded[validator] {
            Some(prev) => if epoch > prev.epoch {
                Some(Vote { root, epoch })
            } else {
                Some(prev)
            },
            None => Some(Vote { root, epoch }),
        },
    )
}

/// The vote table after the first `j` signers of one attestation vote:
/// out-of-range validator indices and votes for blocks `fc` does not
/// track leave the table unchanged.
pub open spec fn spec_votes_after_signers(
    fc: ForkChoice,
    votes: Seq<Option<Vote>>,
    data: AttestationData,
    signers: Seq<u64>,
    j: int,
) -> Seq<Option<Vote>>
    decreases j,
{
    if j <= 0 {
        votes
    } else {
        let prev = spec_votes_after_signers(fc, votes, data, signers, j - 1);
        let v = signers[j - 1];
        if v < 0x1000_0000 && fc.spec_contains(data.beacon_block_root) {
            spec_vote_upsert(prev, v as int, data.beacon_block_root, data.target.epoch)
        } else {
            prev
        }
    }
}

/// The vote table after every signer of the first `i` attestations votes.
pub open spec fn spec_votes_after_atts(
    fc: ForkChoice,
    votes: Seq<Option<Vote>>,
    atts: Seq<crate::block::AttestationAbs>,
    i: int,
) -> Seq<Option<Vote>>
    decreases i,
{
    if i <= 0 {
        votes
    } else {
        let prev = spec_votes_after_atts(fc, votes, atts, i - 1);
        let a = atts[i - 1];
        spec_votes_after_signers(fc, prev, a.data, a.attesting_indices, a.attesting_indices.len() as int)
    }
}

/// A pointwise-described vote table equals `spec_vote_upsert` of the old
/// one: the shape `ForkChoice::on_attestation` ensures.
pub proof fn lemma_vote_upsert_shape(
    old_votes: Seq<Option<Vote>>,
    new_votes: Seq<Option<Vote>>,
    validator: u64,
    root: u64,
    epoch: u64,
)
    requires
        validator < 0x1000_0000,
        new_votes.len() == if old_votes.len() >= validator + 1 {
            old_votes.len() as int
        } else {
            validator + 1
        },
        new_votes[validator as int] == (match (if validator < old_votes.len() {
            old_votes[validator as int]
        } else {
            None
        }) {
            Some(prev) => if epoch > prev.epoch {
                Some(Vote { root, epoch })
            } else {
                Some(prev)
            },
            None => Some(Vote { root, epoch }),
        }),
        forall|v: int|
            0 <= v < new_votes.len() && v != validator ==> new_votes[v] == (if v
                < old_votes.len() {
                old_votes[v]
            } else {
                None
            }),
    ensures
        new_votes == spec_vote_upsert(old_votes, validator as int, root, epoch),
{
    let padded = if old_votes.len() >= validator + 1 {
        old_votes
    } else {
        old_votes + Seq::new((validator + 1 - old_votes.len()) as nat, |k: int| None::<Vote>)
    };
    assert(padded.len() == new_votes.len());
    assert(padded[validator as int] == (if validator < old_votes.len() {
        old_votes[validator as int]
    } else {
        None
    }));
    assert forall|v: int| 0 <= v < new_votes.len() implies new_votes[v] == spec_vote_upsert(
        old_votes,
        validator as int,
        root,
        epoch,
    )[v] by {
        if v != validator {
            assert(padded[v] == (if v < old_votes.len() {
                old_votes[v]
            } else {
                None
            }));
        }
    }
    assert(new_votes =~= spec_vote_upsert(old_votes, validator as int, root, epoch));
}

/// Whether one of the first `upto` signers of attestation `a` is recorded
/// as the block-attester pair `p`: the signer matches, the index is in the
/// tracked range and the target epoch is recent enough relative to the
/// wall clock.
pub open spec fn spec_att_signs(
    a: crate::block::AttestationAbs,
    upto: int,
    current_epoch: u64,
    p: (u64, u64),
) -> bool {
    exists|m: int|
        0 <= m < upto && m < a.attesting_indices.len() && a.attesting_indices[m] == p.1
            && a.data.target.epoch == p.0 && p.1 < 0x1000_0000 && (p.0 >= current_epoch
            || current_epoch - p.0 <= 1)
}

/// Whether some attestation of `atts` records the block-attester pair `p`.
pub open spec fn spec_block_attests(
    atts: Seq<crate::block::AttestationAbs>,
    current_epoch: u64,
    p: (u64, u64),
) -> bool {
    exists|k: int|
        0 <= k < atts.len() && spec_att_signs(
            atts[k],
            atts[k].attesting_indices.len() as int,
            current_epoch,
            p,
        )
}

impl BeaconChain {
    /// Whether the configured weak-subjectivity checkpoint agrees with the
    /// chain described by `state`: at the same epoch the roots must match;
    /// at an older epoch the chain's root at the checkpoint's first slot
    /// must match; a checkpoint ahead of finality is not yet checkable.
    pub open spec fn spec_wss_ok(wss: Checkpoint, state: StateSummary) -> bool {
        if wss.epoch == state.finalized.epoch {
            wss.root == state.finalized.root
        } else if wss.epoch < state.finalized.epoch {
            state.spec_block_root_at((wss.epoch * SLOTS_PER_EPOCH) as u64) == Some(wss.root)
        } else {
            true
        }
    }

    /// Executable weak-subjectivity comparison.
    fn verify_weak_subjectivity_checkpoint_inner(
        &self,
        wss_checkpoint: Checkpoint,
        _beacon_block_root: u64,
        state: &StateSummary,
    ) -> (r: bool)
        requires
            state.wf(),
        ensures
            r == Self::spec_wss_ok(wss_checkpoint, *state),
    {
        if wss_checkpoint.epoch == state.finalized.epoch {
            wss_checkpoint.root == state.finalized.root
        } else if wss_checkpoint.epoch < state.finalized.epoch {
            proof {
                assert(state.finalized.epoch < MAX_SLOT);
            }
            let s = wss_checkpoint.epoch * SLOTS_PER_EPOCH;
            match state.block_root_at(s) {
                Some(rt) => rt == wss_checkpoint.root,
                None => false,
            }
        } else {
            true
        }
    }

    /// Check a weak-subjectivity checkpoint against the chain; a mismatch
    /// is a protocol-safety failure.
    pub fn verify_weak_subjectivity_checkpoint(
        &self,
        wss_checkpoint: Checkpoint,
        beacon_block_root: u64,
        state: &StateSummary,
    ) -> (r: Result<(), ChainError>)
        requires
            state.wf(),
        ensures
            r is Ok <==> Self::spec_wss_ok(wss_checkpoint, *state),
            r is Err ==> r == Err::<(), ChainError>(
                ChainError::WeakSubjectivityVerificationFailure,
            ),
    {
        if self.verify_weak_subjectivity_checkpoint_inner(
            wss_checkpoint,
            beacon_block_root,
            state,
        ) {
            Ok(())
        } else {
            Err(ChainError::WeakSubjectivityVerificationFailure)
        }
    }

    /// Atomic import of a fully-verified block.
    ///
    /// Registers the block's attestations with the observation caches, the
    /// slashing detector's feed and fork choice; warms the shuffling and
    /// attester caches; checks a configured weak-subjectivity checkpoint
    /// when finality first crosses it; registers the block with fork
    /// choice; writes block and state as one atomic batch; and only then
    /// registers the new chain tip and emits the block event.
    ///
    /// If the batch write fails after fork choice was mutated in memory,
    /// the fork-choice structure is reloaded from the last persisted
    /// snapshot so that memory and durable storage cannot diverge.
    pub fn import_block(&mut self, fully_verified_block: FullyVerifiedBlock) -> (r: Result<
        u64,
        BlockError,
    >)
        requires
            old(self).wf(),
            old(self).clock_slot is Some,
            fully_verified_block.state.wf(),
            fully_verified_block.block_root == fully_verified_block.block.root,
            fully_verified_block.state.slot == fully_verified_block.block.slot,
            fully_verified_block.state.latest_block_root == fully_verified_block.block.root,
            fully_verified_block.state.current_state_root
                == fully_verified_block.block.state_root,
            !old(self).fork_choice.spec_contains(fully_verified_block.block_root),
            old(self).fork_choice.spec_contains(fully_verified_block.block.parent_root),
            !(old(self).fork_choice.spec_node_of(
                fully_verified_block.block.parent_root,
            ).execution_status is Invalid),
            fully_verified_block.block_root != fully_verified_block.block.parent_root,
            fully_verified_block.block.slot < MAX_SLOT,
            (fully_verified_block.payload_verification_status is Irrelevant) == (
            fully_verified_block.block.payload_block_hash is None),
        ensures
            final(self).wf(),
            final(self).clock_slot == old(self).clock_slot,
            final(self).canonical_head == old(self).canonical_head,
            final(self).genesis_block_root == old(self).genesis_block_root,
            // Import fails exactly on a weak-subjectivity conflict, a
            // fork-choice structure at capacity, or a failed write — in
            // that order; otherwise success is owed.
            r is Ok <==> (!old(self).spec_wss_conflict(fully_verified_block.state@) && old(
                self,
            ).fork_choice.nodes@.len() < usize::MAX - 1 && !old(self).store.fail_next_write),
            match r {
                Ok(root) => {
                    let block = fully_verified_block.block;
                    let state = fully_verified_block.state;
                    &&& root == block.root
                    &&& !old(self).store.fail_next_write
                    &&& final(self).store.blocks@.contains_key(root)
                    &&& final(self).store.blocks@[root]@ == block@
                    &&& forall|q: u64|
                        q != root ==> (#[trigger] final(self).store.blocks@.contains_key(q)
                            == old(self).store.blocks@.contains_key(q)) && (old(
                            self,
                        ).store.blocks@.contains_key(q) ==> final(self).store.blocks@[q] == old(
                            self,
                        ).store.blocks@[q])
                    &&& final(self).store.states@.contains_key(block.state_root)
                    &&& final(self).store.states@[block.state_root]@ == state@
                    &&& final(self).fork_choice.nodes@ == old(self).fork_choice.nodes@.push(
                        ProtoNode {
                            root,
                            parent: Some(
                                old(self).fork_choice.index_of@[block.parent_root],
                            ),
                            slot: block.slot,
                            state_root: block.state_root,
                            justified_checkpoint: state.current_justified,
                            finalized_checkpoint: state.finalized,
                            execution_status: spec_import_status(
                                fully_verified_block.payload_verification_status,
                                block.payload_block_hash,
                            ),
                        },
                    )
                    &&& final(self).fork_choice.index_of@ == old(
                        self,
                    ).fork_choice.index_of@.insert(root, old(self).fork_choice.nodes@.len() as usize)
                    &&& spec_tracks(final(self).head_tracker.heads@, root)
                    &&& crate::head_tracker::spec_slot_of(final(self).head_tracker.heads@, root)
                        == block.slot
                    &&& !spec_tracks(final(self).head_tracker.heads@, block.parent_root)
                    &&& final(self).events@ == old(self).events@.push(
                        EventKind::Block { slot: block.slot, block: root },
                    )
                    &&& !final(self).pre_finalization_block_cache.seen@.contains(root)
                    // Every attestation of the block is fed to the
                    // slashing detector in order, recorded in the
                    // observed-attestations set, credited to its signers
                    // when the target epoch is recent, and applied to the
                    // fork-choice vote table.
                    &&& final(self).slasher_feed@ == old(self).slasher_feed@ + spec_att_datas(
                        block@.attestations,
                    )
                    &&& forall|d: AttestationData|
                        #[trigger] final(self).observed_attestations.seen@.contains(d) == (old(
                            self,
                        ).observed_attestations.seen@.contains(d) || spec_att_datas(
                            block@.attestations,
                        ).contains(d))
                    &&& forall|p: (u64, u64)|
                        #[trigger] final(self).observed_block_attesters.seen@.contains(p) == (old(
                            self,
                        ).observed_block_attesters.seen@.contains(p) || spec_block_attests(
                            block@.attestations,
                            spec_epoch_of(old(self).clock_slot->0),
                            p,
                        ))
                    &&& final(self).fork_choice.votes@ == spec_votes_after_atts(
                        old(self).fork_choice,
                        old(self).fork_choice.votes@,
                        block@.attestations,
                        block@.attestations.len() as int,
                    )
                },
                Err(e) => {
                    ||| {
                        // The fork-choice structure is at capacity; nothing
                        // was changed durably.
                        &&& e == BlockError::BeaconChainError(ChainError::ArithmeticOverflow)
                        &&& !old(self).spec_wss_conflict(fully_verified_block.state@)
                        &&& old(self).fork_choice.nodes@.len() >= usize::MAX - 1
                        &&& final(self).store.blocks@ == old(self).store.blocks@
                        &&& final(self).store.states@ == old(self).store.states@
                        &&& final(self).fork_choice.nodes@ == old(self).fork_choice.nodes@
                        &&& final(self).fork_choice.index_of@ == old(self).fork_choice.index_of@
                        &&& final(self).events@ == old(self).events@
                    }
                    ||| {
                        // The configured weak-subjectivity checkpoint was
                        // contradicted; the engine requested shutdown and
                        // changed neither storage nor fork choice.
                        &&& e == BlockError::WeakSubjectivityConflict
                        &&& old(self).spec_wss_conflict(fully_verified_block.state@)
                        &&& final(self).shutdown_requests@ == old(self).shutdown_requests@.push(
                            ShutdownReason::WeakSubjectivityFailure,
                        )
                        &&& final(self).store.blocks@ == old(self).store.blocks@
                        &&& final(self).store.states@ == old(self).store.states@
                        &&& final(self).fork_choice.nodes@ == old(self).fork_choice.nodes@
                        &&& final(self).fork_choice.index_of@ == old(self).fork_choice.index_of@
                        &&& final(self).events@ == old(self).events@
                    }
                    ||| {
                        // The atomic write failed: nothing was stored and
                        // the in-memory fork choice was restored from the
                        // last persisted snapshot (when one exists).
                        &&& e == BlockError::BeaconChainError(
                            ChainError::DBError(StoreError::AtomicWriteFailed),
                        )
                        &&& !old(self).spec_wss_conflict(fully_verified_block.state@)
                        &&& old(self).fork_choice.nodes@.len() < usize::MAX - 1
                        &&& old(self).store.fail_next_write
                        &&& final(self).store.blocks@ == old(self).store.blocks@
                        &&& final(self).store.states@ == old(self).store.states@
                        &&& !final(self).store.fail_next_write
                        &&& final(self).events@ == old(self).events@
                        &&& final(self).fork_choice.nodes@ == old(
                            self,
                        ).store.persisted_fork_choice->0.nodes@
                        &&& final(self).fork_choice.index_of@ == old(
                            self,
                        ).store.persisted_fork_choice->0.index_of@
                    }
                },
            },
    {
        let block = fully_verified_block.block;
        let block_root = fully_verified_block.block_root;
        let state = fully_verified_block.state;
        let payload_verification_status = fully_verified_block.payload_verification_status;
        let current_slot = match self.slot() {
            Ok(s) => s,
            Err(_) => {
                // Unreachable: the callers' preconditions and the
                // structure's well-formedness rule this arm out.
                proof {
                    assert(false);
                }
                0
            },
        };
        let current_epoch = current_slot / SLOTS_PER_EPOCH;

        // Only perform the weak-subjectivity check when finality first
        // crosses the configured epoch; a conflict is fatal.
        let old_finalized_checkpoint = self.fork_choice.finalized_checkpoint;
        let new_finalized_checkpoint = state.finalized;
        match self.config.weak_subjectivity_checkpoint {
            Some(wss_checkpoint) => {
                if old_finalized_checkpoint.epoch < wss_checkpoint.epoch && wss_checkpoint.epoch
                    <= new_finalized_checkpoint.epoch {
                    if !self.verify_weak_subjectivity_checkpoint_inner(
                        wss_checkpoint,
                        block_root,
                        &state,
                    ) {
                        proof {
                            assert(old(self).spec_wss_conflict(state@));
                        }
                        self.shutdown_requests.push(ShutdownReason::WeakSubjectivityFailure);
                        return Err(BlockError::WeakSubjectivityConflict);
                    }
                }
            },
            None => {},
        }
        proof {
            assert(!old(self).spec_wss_conflict(state@));
        }

        // Register the block's attestations: dedup caches, the slashing
        // detector's feed, the per-validator observation records and fork
        // choice's vote tracking.
        let mut i: usize = 0;
        let ghost atts = block@.attestations;
        while i < block.attestations.len()
            invariant
                old(self).wf(),
                self.wf(),
                i <= block.attestations@.len(),
                atts == block@.attestations,
                atts.len() == block.attestations@.len(),
                current_epoch == spec_epoch_of(old(self).clock_slot->0),
                self.store == old(self).store,
                self.fork_choice.nodes@ == old(self).fork_choice.nodes@,
                self.fork_choice.index_of@ == old(self).fork_choice.index_of@,
                self.fork_choice.justified_checkpoint == old(
                    self,
                ).fork_choice.justified_checkpoint,
                self.fork_choice.finalized_checkpoint == old(
                    self,
                ).fork_choice.finalized_checkpoint,
                self.head_tracker == old(self).head_tracker,
                self.events@ == old(self).events@,
                self.shutdown_requests@ == old(self).shutdown_requests@,
                self.canonical_head == old(self).canonical_head,
                self.clock_slot == old(self).clock_slot,
                self.shuffling_cache == old(self).shuffling_cache,
                self.attester_cache == old(self).attester_cache,
                self.early_attester_cache == old(self).early_attester_cache,
                self.pre_finalization_block_cache == old(self).pre_finalization_block_cache,
                self.genesis_block_root == old(self).genesis_block_root,
                self.slasher_feed@ == old(self).slasher_feed@ + spec_att_datas(
                    atts.take(i as int),
                ),
                forall|d: AttestationData|
                    #[trigger] self.observed_attestations.seen@.contains(d) == (old(
                        self,
                    ).observed_attestations.seen@.contains(d) || spec_att_datas(
                        atts.take(i as int),
                    ).contains(d)),
                forall|p: (u64, u64)|
                    #[trigger] self.observed_block_attesters.seen@.contains(p) == (old(
                        self,
                    ).observed_block_attesters.seen@.contains(p) || spec_block_attests(
                        atts.take(i as int),
                        current_epoch,
                        p,
                    )),
                self.fork_choice.votes@ == spec_votes_after_atts(
                    old(self).fork_choice,
                    old(self).fork_choice.votes@,
                    atts,
                    i as int,
                ),
            decreases block.attestations@.len() - i,
        {
            let data = block.attestations[i].data;
            proof {
                assert(atts[i as int] == block.attestations@[i as int]@);
                assert(atts[i as int].data == data);
            }
            let _outcome = self.observed_attestations.observe_item(&data);
            self.slasher_feed.push(data);
            proof {
                let dat0 = spec_att_datas(atts.take(i as int));
                let dat1 = spec_att_datas(atts.take(i as int + 1));
                assert(atts.take(i as int + 1) =~= atts.take(i as int).push(atts[i as int]));
                assert(dat1 =~= dat0.push(data));
                assert(self.slasher_feed@ =~= old(self).slasher_feed@ + dat1);
                assert forall|d: AttestationData| #[trigger]
                    dat1.contains(d) == (dat0.contains(d) || d == data) by {
                    if dat1.contains(d) {
                        let m = choose|m: int| 0 <= m < dat1.len() && dat1[m] == d;
                        if m < dat0.len() {
                            assert(dat0[m] == d);
                        }
                    }
                    if dat0.contains(d) {
                        let m = choose|m: int| 0 <= m < dat0.len() && dat0[m] == d;
                        assert(dat1[m] == d);
                    }
                    if d == data {
                        assert(dat1[dat1.len() - 1] == d);
                    }
                }
            }
            let mut j: usize = 0;
            let n_signers = block.attestations[i].attesting_indices.len();
            while j < n_signers
                invariant
                    old(self).wf(),
                    self.wf(),
                    i < block.attestations@.len(),
                    j <= n_signers,
                    atts == block@.attestations,
                    atts.len() == block.attestations@.len(),
                    current_epoch == spec_epoch_of(old(self).clock_slot->0),
                    n_signers == block.attestations@[i as int].attesting_indices@.len(),
                    n_signers == atts[i as int].attesting_indices.len(),
                    data == block.attestations@[i as int].data,
                    data == atts[i as int].data,
                    self.store == old(self).store,
                    self.fork_choice.nodes@ == old(self).fork_choice.nodes@,
                    self.fork_choice.index_of@ == old(self).fork_choice.index_of@,
                    self.fork_choice.justified_checkpoint == old(
                        self,
                    ).fork_choice.justified_checkpoint,
                    self.fork_choice.finalized_checkpoint == old(
                        self,
                    ).fork_choice.finalized_checkpoint,
                    self.head_tracker == old(self).head_tracker,
                    self.events@ == old(self).events@,
                    self.shutdown_requests@ == old(self).shutdown_requests@,
                    self.canonical_head == old(self).canonical_head,
                    self.clock_slot == old(self).clock_slot,
                    self.shuffling_cache == old(self).shuffling_cache,
                    self.attester_cache == old(self).attester_cache,
                    self.early_attester_cache == old(self).early_attester_cache,
                    self.pre_finalization_block_cache == old(
                        self,
                    ).pre_finalization_block_cache,
                    self.genesis_block_root == old(self).genesis_block_root,
                    self.slasher_feed@ == old(self).slasher_feed@ + spec_att_datas(
                        atts.take(i as int + 1),
                    ),
                    forall|d: AttestationData|
                        #[trigger] self.observed_attestations.seen@.contains(d) == (old(
                            self,
                        ).observed_attestations.seen@.contains(d) || spec_att_datas(
                            atts.take(i as int + 1),
                        ).contains(d)),
                    forall|p: (u64, u64)|
                        #[trigger] self.observed_block_attesters.seen@.contains(p) == (old(
                            self,
                        ).observed_block_attesters.seen@.contains(p) || spec_block_attests(
                            atts.take(i as int),
                            current_epoch,
                            p,
                        ) || spec_att_signs(atts[i as int], j as int, current_epoch, p)),
                    self.fork_choice.votes@ == spec_votes_after_signers(
                        old(self).fork_choice,
                        spec_votes_after_atts(
                            old(self).fork_choice,
                            old(self).fork_choice.votes@,
                            atts,
                            i as int,
                        ),
                        data,
                        atts[i as int].attesting_indices,
                        j as int,
                    ),
                decreases n_signers - j,
            {
                let validator = block.attestations[i].attesting_indices[j];
                proof {
                    assert(atts[i as int].attesting_indices[j as int] == validator);
                }
                let ghost votes_pre = self.fork_choice.votes@;
                let ghost attesters_pre = self.observed_block_attesters.seen@;
                if validator < 0x1000_0000 {
                    // Fork choice tracks the latest vote; an unknown vote
                    // target is benign here, as for attestations from
                    // very old blocks.
                    let _ignored = self.fork_choice.on_attestation(
                        validator,
                        data.beacon_block_root,
                        data.target.epoch,
                    );
                    proof {
                        match _ignored {
                            Ok(()) => {
                                assert(old(self).fork_choice.spec_contains(
                                    data.beacon_block_root,
                                ));
                                lemma_vote_upsert_shape(
                                    votes_pre,
                                    self.fork_choice.votes@,
                                    validator,
                                    data.beacon_block_root,
                                    data.target.epoch,
                                );
                            },
                            Err(_) => {
                                assert(!old(self).fork_choice.spec_contains(
                                    data.beacon_block_root,
                                ));
                            },
                        }
                    }
                    if data.target.epoch >= current_epoch || current_epoch - data.target.epoch
                        <= 1 {
                        let _newly = self.observed_block_attesters.observe(
                            data.target.epoch,
                            validator,
                        );
                    }
                }
                proof {
                    assert forall|p: (u64, u64)|
                        #[trigger] self.observed_block_attesters.seen@.contains(p) == (old(
                            self,
                        ).observed_block_attesters.seen@.contains(p) || spec_block_attests(
                            atts.take(i as int),
                            current_epoch,
                            p,
                        ) || spec_att_signs(
                            atts[i as int],
                            j as int + 1,
                            current_epoch,
                            p,
                        )) by {
                        let a = atts[i as int];
                        if spec_att_signs(a, j as int + 1, current_epoch, p) && !spec_att_signs(
                            a,
                            j as int,
                            current_epoch,
                            p,
                        ) {
                            // The new pair is exactly this signer's.
                            assert(p == (data.target.epoch, validator));
                        }
                        if self.observed_block_attesters.seen@.contains(p)
                            && !attesters_pre.contains(p) {
                            assert(p == (data.target.epoch, validator));
                            assert(spec_att_signs(a, j as int + 1, current_epoch, p));
                        }
                        if p == (data.target.epoch, validator) && validator < 0x1000_0000 && (
                        data.target.epoch >= current_epoch || current_epoch - data.target.epoch
                            <= 1) {
                            assert(a.attesting_indices[j as int] == p.1);
                            assert(spec_att_signs(a, j as int + 1, current_epoch, p));
                        }
                    }
                    assert forall|rt: u64| #[trigger]
                        self.fork_choice.spec_contains(rt) implies self.store.blocks@.contains_key(
                        rt,
                    ) by {
                        assert(old(self).fork_choice.spec_contains(rt));
                    }
                    assert forall|rt: u64| #[trigger]
                        self.fork_choice.spec_contains(
                            rt,
                        ) implies self.store.states@.contains_key(
                        self.fork_choice.spec_node_of(rt).state_root,
                    ) by {
                        assert(old(self).fork_choice.spec_contains(rt));
                        assert(self.fork_choice.spec_node_of(rt) == old(
                            self,
                        ).fork_choice.spec_node_of(rt));
                    }
                }
                j = j + 1;
            }
            proof {
                let t0 = atts.take(i as int);
                let t1 = atts.take(i as int + 1);
                assert forall|p: (u64, u64)|
                    spec_block_attests(t1, current_epoch, p) == (spec_block_attests(
                        t0,
                        current_epoch,
                        p,
                    ) || spec_att_signs(
                        atts[i as int],
                        atts[i as int].attesting_indices.len() as int,
                        current_epoch,
                        p,
                    )) by {
                    assert(t1[i as int] == atts[i as int]);
                    if spec_block_attests(t1, current_epoch, p) {
                        let k = choose|k: int|
                            0 <= k < t1.len() && spec_att_signs(
                                t1[k],
                                t1[k].attesting_indices.len() as int,
                                current_epoch,
                                p,
                            );
                        if k < i {
                            assert(t0[k] == t1[k]);
                            assert(spec_block_attests(t0, current_epoch, p));
                        }
                    }
                    if spec_block_attests(t0, current_epoch, p) {
                        let k = choose|k: int|
                            0 <= k < t0.len() && spec_att_signs(
                                t0[k],
                                t0[k].attesting_indices.len() as int,
                                current_epoch,
                                p,
                            );
                        assert(t1[k] == t0[k]);
                        assert(spec_block_attests(t1, current_epoch, p));
                    }
                    if spec_att_signs(
                        atts[i as int],
                        atts[i as int].attesting_indices.len() as int,
                        current_epoch,
                        p,
                    ) {
                        assert(spec_block_attests(t1, current_epoch, p));
                    }
                }
            }
            i = i + 1;
        }
        proof {
            assert(atts.take(atts.len() as int) == atts);
        }

        // New validators extend the public-key cache.
        if state.validator_count > self.validator_pubkey_count {
            self.validator_pubkey_count = state.validator_count;
        }

        // Warm the shuffling cache for the state's current and next epoch.
        let state_epoch = state.current_epoch();
        proof {
            assert(state_epoch < MAX_SLOT);
        }
        let decision_current = state.attester_decision_root(state_epoch);
        if !self.shuffling_cache.contains(state_epoch, decision_current) {
            let committees = compute_committees(
                state_epoch,
                decision_current,
                state.validator_count,
            );
            self.shuffling_cache.insert(committees);
        }
        let decision_next = state.attester_decision_root(state_epoch + 1);
        if !self.shuffling_cache.contains(state_epoch + 1, decision_next) {
            let committees = compute_committees(
                state_epoch + 1,
                decision_next,
                state.validator_count,
            );
            self.shuffling_cache.insert(committees);
        }

        // Warm the attester cache for states from the previous epoch on.
        if state_epoch + 1 >= current_epoch {
            self.attester_cache.insert(
                state_epoch,
                decision_current,
                state.current_justified,
                decision_current,
            );
        }

        // Register the block with fork choice.
        let parent_root = block.parent_root;
        let execution_status = match payload_verification_status {
            PayloadVerificationStatus::Irrelevant => ExecutionStatus::Irrelevant,
            PayloadVerificationStatus::Verified => {
                let h = match block.payload_block_hash {
                    Some(h) => h,
                    None => 0,
                };
                ExecutionStatus::Valid(h)
            },
            PayloadVerificationStatus::Optimistic => {
                let h = match block.payload_block_hash {
                    Some(h) => h,
                    None => 0,
                };
                ExecutionStatus::Optimistic(h)
            },
        };
        if self.fork_choice.nodes.len() >= usize::MAX - 1 {
            return Err(BlockError::BeaconChainError(ChainError::ArithmeticOverflow));
        }
        let _ok = self.fork_choice.on_block(
            block_root,
            parent_root,
            block.slot,
            block.state_root,
            state.current_justified,
            state.finalized,
            execution_status,
        );

        // If the block is recent and not optimistic, and it wins head
        // selection, let the early attester cache serve it before the
        // database write lands.
        let is_optimistic = match payload_verification_status {
            PayloadVerificationStatus::Optimistic => true,
            _ => false,
        };
        if !is_optimistic && block.slot + EARLY_ATTESTER_CACHE_HISTORIC_SLOTS >= current_slot {
            let head_now = self.fork_choice.get_head(current_slot);
            match head_now {
                Ok(new_head_root) => {
                    if new_head_root == block_root {
                        let target_slot = state_epoch * SLOTS_PER_EPOCH;
                        let target_root = if block.slot == target_slot {
                            block_root
                        } else {
                            match state.block_root_at(target_slot) {
                                Some(rt) => rt,
                                None => block_root,
                            }
                        };
                        self.early_attester_cache.add_head_block(
                            EarlyAttesterEntry {
                                epoch: state_epoch,
                                source: state.current_justified,
                                target: Checkpoint { epoch: state_epoch, root: target_root },
                                block: block.duplicate(),
                                committee_decision_root: decision_current,
                                validator_count: state.validator_count,
                            },
                        );
                    }
                },
                Err(_) => {},
            }
        }

        // Store block and state as one atomic batch. If the write fails,
        // revert fork choice to the persisted snapshot: blocks must never
        // sit in fork choice while missing from disk.
        let ghost state_snapshot = state;
        let ghost block_snapshot = block;
        let ghost blocks_before = self.store.blocks@;
        let ghost states_before = self.store.states@;
        let mut ops: Vec<StoreOp> = Vec::new();
        ops.push(StoreOp::PutState(block.state_root, state));
        let block_slot = block.slot;
        let block_state_root = block.state_root;
        ops.push(StoreOp::PutBlock(block));
        let ghost opsv = ops@;
        proof {
            assert(opsv.len() == 2);
            assert(opsv[1] == StoreOp::PutBlock(block_snapshot));
            assert(opsv[0] == StoreOp::PutState(block_state_root, state_snapshot));
        }
        match self.store.do_atomically(ops) {
            Ok(()) => {
                proof {
                    let short = opsv.drop_last();
                    assert(short.len() == 1);
                    assert(short[0] == opsv[0]);
                    assert(short.drop_last().len() == 0);
                    assert(crate::store::spec_apply_blocks(blocks_before, short.drop_last())
                        == blocks_before);
                    assert(crate::store::spec_apply_states(states_before, short.drop_last())
                        == states_before);
                    assert(short.last() == opsv[0]);
                    assert(crate::store::spec_apply_blocks(blocks_before, short)
                        == blocks_before);
                    assert(crate::store::spec_apply_states(states_before, short)
                        == states_before.insert(block_state_root, state_snapshot));
                    assert(opsv.last() == opsv[1]);
                    assert(self.store.blocks@ == blocks_before.insert(
                        block_snapshot.root,
                        block_snapshot,
                    ));
                    assert(self.store.states@ == states_before.insert(
                        block_state_root,
                        state_snapshot,
                    ));
                    crate::store::lemma_apply_states_wf(states_before, opsv);
                    crate::store::lemma_apply_blocks_rooted(blocks_before, opsv);
                    assert forall|rt: u64| #[trigger]
                        self.fork_choice.spec_contains(
                            rt,
                        ) implies self.store.blocks@.contains_key(rt) by {
                        if rt != block_snapshot.root {
                            assert(old(self).fork_choice.spec_contains(rt));
                        }
                    }
                    assert forall|rt: u64| #[trigger]
                        self.fork_choice.spec_contains(
                            rt,
                        ) implies self.store.states@.contains_key(
                        self.fork_choice.spec_node_of(rt).state_root,
                    ) by {
                        if rt != block_snapshot.root {
                            assert(old(self).fork_choice.spec_contains(rt));
                            assert(self.fork_choice.spec_node_of(rt) == old(
                                self,
                            ).fork_choice.spec_node_of(rt));
                        } else {
                            assert(self.fork_choice.spec_node_of(rt).state_root
                                == block_state_root);
                        }
                    }
                    let pfc = self.store.persisted_fork_choice->0;
                    assert forall|rt: u64| #[trigger]
                        pfc.spec_contains(rt) implies self.store.blocks@.contains_key(rt) by {
                        assert(old(self).store.persisted_fork_choice->0.spec_contains(rt));
                    }
                }
            },
            Err(e) => {
                match self.store.load_fork_choice() {
                    Some(persisted) => {
                        self.fork_choice = persisted;
                        proof {
                            let pfc = self.store.persisted_fork_choice->0;
                            assert(self.fork_choice.index_of@ == pfc.index_of@);
                            assert(self.fork_choice.nodes@ == pfc.nodes@);
                            assert forall|rt: u64| #[trigger]
                                self.fork_choice.spec_contains(
                                    rt,
                                ) implies self.store.blocks@.contains_key(rt) by {
                                assert(pfc.spec_contains(rt));
                            }
                            assert forall|rt: u64| #[trigger]
                                self.fork_choice.spec_contains(
                                    rt,
                                ) implies self.store.states@.contains_key(
                                self.fork_choice.spec_node_of(rt).state_root,
                            ) by {
                                assert(pfc.spec_contains(rt));
                                assert(self.fork_choice.spec_node_of(rt) == pfc.spec_node_of(
                                    rt,
                                ));
                            }
                        }
                    },
                    None => {
                        // Unreachable: a persisted snapshot exists from
                        // construction on.
                        proof {
                            assert(false);
                        }
                    },
                }
                return Err(BlockError::BeaconChainError(ChainError::DBError(e)));
            },
        }

        // The block is now durable: it becomes a chain tip, the event is
        // emitted and the pre-finalization cache learns the root exists.
        self.head_tracker.register_block(block_root, parent_root, block_slot);
        self.events.push(EventKind::Block { slot: block_slot, block: block_root });
        self.pre_finalization_block_cache.remove(block_root);
        self.block_times_cache.set_time_imported(block_root, current_slot, current_slot);
        Ok(block_root)
    }
}

impl BeaconChain {
    /// Verify and import one block: gossip checks, full verification,
    /// then atomic import.
    ///
    /// Importing an already-known block root is rejected as already known
    /// and alters nothing: not fork choice, not storage, not the head.
    pub fn process_block(&mut self, block: BlockSummary) -> (r: Result<u64, BlockError>)
        requires
            old(self).wf(),
            old(self).clock_slot is Some,
        ensures
            final(self).wf(),
            final(self).clock_slot == old(self).clock_slot,
            final(self).canonical_head == old(self).canonical_head,
            final(self).genesis_block_root == old(self).genesis_block_root,
            // The store only grows: a failed or skipped import never
            // removes a stored block, and a rejection stores nothing new.
            forall|q: u64|
                old(self).store.blocks@.contains_key(q) ==> final(self).store.blocks@.contains_key(
                    q,
                ),
            r is Err ==> final(self).store.blocks@ == old(self).store.blocks@,
            // Only an internal error can shrink fork choice (by reloading
            // the persisted snapshot); every plain rejection leaves its
            // tracked roots exactly as they were.
            match r {
                Ok(_) => true,
                Err(e) => !(e matches BlockError::BeaconChainError { .. }) ==> final(self).fork_choice.index_of@ == old(self).fork_choice.index_of@,
            },
            // A failing gossip or transition check is reported exactly,
            // and alters nothing: not fork choice, not storage, not the
            // head. In particular a duplicate import of an already-known
            // root is rejected as already known and changes nothing.
            old(self).spec_gossip_check(block) is Some ==> r == Err::<u64, BlockError>(
                old(self).spec_gossip_check(block)->0,
            ) && *final(self) == *old(self),
            (old(self).spec_gossip_check(block) is None && old(self).spec_full_check(
                block,
            ) is Some) ==> r == Err::<u64, BlockError>(old(self).spec_full_check(block)->0)
                && *final(self) == *old(self),
            // When every check passes, success is owed unless the
            // weak-subjectivity checkpoint is contradicted, fork choice is
            // at capacity, or the atomic write fails.
            (old(self).spec_gossip_check(block) is None && old(self).spec_full_check(
                block,
            ) is None) ==> (r is Ok <==> (!old(self).spec_wss_conflict(
                old(self).spec_pre_state(block).apply(block@),
            ) && old(self).fork_choice.nodes@.len() < usize::MAX - 1 && !old(
                self,
            ).store.fail_next_write)),
            match r {
                Ok(root) => {
                    &&& root == block.root
                    &&& final(self).fork_choice.spec_contains(root)
                    &&& final(self).fork_choice.nodes@.len() == old(
                        self,
                    ).fork_choice.nodes@.len() + 1
                    // The imported root is exactly the one new tracked
                    // root, and exactly the one new stored block.
                    &&& forall|q: u64|
                        #[trigger] final(self).fork_choice.spec_contains(q) == (old(
                            self,
                        ).fork_choice.spec_contains(q) || q == root)
                    &&& final(self).store.blocks@.contains_key(root)
                    &&& final(self).store.blocks@[root]@ == block@
                    &&& forall|q: u64|
                        q != root ==> (#[trigger] final(self).store.blocks@.contains_key(q)
                            == old(self).store.blocks@.contains_key(q))
                    &&& spec_tracks(final(self).head_tracker.heads@, root)
                    &&& crate::head_tracker::spec_slot_of(final(self).head_tracker.heads@, root)
                        == block.slot
                    &&& !old(self).fork_choice.spec_contains(root)
                },
                Err(e) => {
                    &&& (e == BlockError::BlockIsAlreadyKnown ==> old(
                        self,
                    ).fork_choice.spec_contains(block.root) && *final(self) == *old(self))
                    &&& (e == BlockError::GenesisBlock ==> block.root == old(
                        self,
                    ).genesis_block_root && *final(self) == *old(self))
                    &&& (e matches BlockError::WouldRevertFinalizedSlot { .. } ==> block.slot
                        <= old(self).spec_finalized_slot() && *final(self) == *old(self))
                    &&& e != BlockError::NonLinearParentRoots
                    &&& e != BlockError::NonLinearSlots
                    // Only a weak-subjectivity conflict or an internal
                    // error can leave a trace; every plain rejection
                    // changes nothing at all.
                    &&& (!(e matches BlockError::BeaconChainError { .. }) && e
                        != BlockError::WeakSubjectivityConflict ==> *final(self) == *old(self))
                    &&& ((e == BlockError::WeakSubjectivityConflict || e
                        == BlockError::BeaconChainError(ChainError::ArithmeticOverflow))
                        ==> final(self).fork_choice.nodes@ == old(self).fork_choice.nodes@)
                },
            },
    {
        let gossip_verified = match self.verify_block_for_gossip(block) {
            Ok(gv) => gv,
            Err(e) => {
                return Err(e);
            },
        };
        let fully_verified = match self.into_fully_verified_block(gossip_verified) {
            Ok(fv) => fv,
            Err(e) => {
                return Err(e);
            },
        };
        proof {
            if fully_verified.block.root == fully_verified.block.parent_root {
                assert(self.fork_choice.spec_contains(fully_verified.block.parent_root));
            }
        }
        self.import_block(fully_verified)
    }

    /// The first structural fault of a segment, checking from index `i`:
    /// a broken parent link or a non-increasing slot.
    pub open spec fn spec_segment_fault(chain_segment: Seq<BlockSummary>, i: int) -> Option<
        BlockError,
    >
        decreases chain_segment.len() - i,
    {
        if i < 0 || i + 1 >= chain_segment.len() {
            None
        } else if chain_segment[i + 1].parent_root != chain_segment[i].root {
            Some(BlockError::NonLinearParentRoots)
        } else if chain_segment[i + 1].slot <= chain_segment[i].slot {
            Some(BlockError::NonLinearSlots)
        } else {
            Self::spec_segment_fault(chain_segment, i + 1)
        }
    }

    /// A segment block the engine worked through is accounted for: it is
    /// in the store and in fork choice, or it was skipped as the genesis
    /// block or as at or before the finalized slot.
    pub open spec fn spec_segment_block_done(
        before: BeaconChain,
        after: BeaconChain,
        b: BlockSummary,
    ) -> bool {
        ||| (after.store.blocks@.contains_key(b.root) && after.fork_choice.spec_contains(b.root))
        ||| b.root == before.genesis_block_root
        ||| b.slot <= before.spec_finalized_slot()
    }

    /// A segment run stopped at position `f`: every earlier block is
    /// accounted for, and only roots of blocks before `f` joined fork
    /// choice through the run.
    pub open spec fn spec_segment_stopped_at(
        before: BeaconChain,
        after: BeaconChain,
        segment: Seq<BlockSummary>,
        imported: int,
        f: int,
    ) -> bool {
        &&& imported <= f < segment.len()
        &&& forall|k: int|
            0 <= k < f ==> Self::spec_segment_block_done(before, after, segment[k])
        &&& forall|q: u64| #[trigger]
            after.fork_choice.spec_contains(q) ==> before.fork_choice.spec_contains(q) || (
            exists|k: int| 0 <= k < f && segment[k].root == q)
    }

    /// Verify and import an ordered list of blocks claimed to form a
    /// parent chain.
    ///
    /// Structural linearity is checked first: broken parent links or
    /// non-increasing slots reject the whole segment before anything is
    /// imported. Already-known, genesis and pre-finalization blocks are
    /// skipped; the first real failure stops the segment, reporting how
    /// many blocks were imported before it. Segment import is not atomic
    /// across blocks: the imported prefix stays imported.
    pub fn process_chain_segment(&mut self, chain_segment: Vec<BlockSummary>) -> (r:
        ChainSegmentResult)
        requires
            old(self).wf(),
            old(self).clock_slot is Some,
        ensures
            final(self).wf(),
            final(self).clock_slot == old(self).clock_slot,
            final(self).canonical_head == old(self).canonical_head,
            // The store only grows: blocks imported by the segment stay
            // imported whatever happens later in it.
            forall|q: u64|
                old(self).store.blocks@.contains_key(q) ==> final(self).store.blocks@.contains_key(
                    q,
                ),
            // A structurally broken segment is rejected exactly, before
            // anything is imported.
            Self::spec_segment_fault(chain_segment@, 0) is Some ==> r == (
            ChainSegmentResult::Failed {
                imported_blocks: 0,
                error: Self::spec_segment_fault(chain_segment@, 0)->0,
            }) && *final(self) == *old(self),
            // When every block of a non-empty, structurally sound segment
            // is importable from the start, at least the first one is
            // imported.
            (Self::spec_segment_fault(chain_segment@, 0) is None && chain_segment@.len() > 0
                && old(self).spec_gossip_check(chain_segment@[0]) is None && old(
                self,
            ).spec_full_check(chain_segment@[0]) is None && !old(self).spec_wss_conflict(
                old(self).spec_pre_state(chain_segment@[0]).apply(chain_segment@[0]@),
            ) && old(self).fork_choice.nodes@.len() < usize::MAX - 1 && !old(
                self,
            ).store.fail_next_write) ==> (match r {
                ChainSegmentResult::Successful { imported_blocks } => imported_blocks >= 1,
                ChainSegmentResult::Failed { imported_blocks, .. } => imported_blocks >= 1,
            }),
            match r {
                ChainSegmentResult::Failed { imported_blocks, error } => {
                    &&& ((error == BlockError::NonLinearParentRoots || error
                        == BlockError::NonLinearSlots) ==> imported_blocks == 0 && *final(self)
                        == *old(self))
                    &&& imported_blocks <= chain_segment@.len()
                    // The count is the number of blocks that entered fork
                    // choice, unless a failed write rolled it back.
                    &&& (!(error matches BlockError::BeaconChainError { .. })
                        ==> final(self).fork_choice.nodes@.len() == old(
                        self,
                    ).fork_choice.nodes@.len() + imported_blocks)
                    // Already-known, genesis and finalized-slot blocks are
                    // skipped, never reported as the failure.
                    &&& error != BlockError::BlockIsAlreadyKnown
                    &&& error != BlockError::GenesisBlock
                    &&& !(error matches BlockError::WouldRevertFinalizedSlot { .. })
                    // Per-block atomicity: unless an internal error rolled
                    // fork choice back, there is a failing position such
                    // that every earlier block of the segment is imported
                    // (in the store and in fork choice) or was skipped,
                    // and no root from the failing position on entered
                    // fork choice through this call.
                    &&& (!(error matches BlockError::BeaconChainError { .. }) ==> exists|f: int|
                        #[trigger] Self::spec_segment_stopped_at(
                            *old(self),
                            *final(self),
                            chain_segment@,
                            imported_blocks as int,
                            f,
                        ))
                },
                ChainSegmentResult::Successful { imported_blocks } => {
                    &&& imported_blocks <= chain_segment@.len()
                    &&& final(self).fork_choice.nodes@.len() == old(
                        self,
                    ).fork_choice.nodes@.len() + imported_blocks
                    // Every block of a successful segment is accounted
                    // for: imported and retrievable, or skipped as the
                    // genesis block or as at or before the finalized
                    // slot; and only segment roots joined fork choice.
                    &&& forall|k: int|
                        0 <= k < chain_segment@.len() ==> Self::spec_segment_block_done(
                            *old(self),
                            *final(self),
                            chain_segment@[k],
                        )
                    &&& forall|q: u64| #[trigger]
                        final(self).fork_choice.spec_contains(q) ==> old(
                            self,
                        ).fork_choice.spec_contains(q) || (exists|k: int|
                            0 <= k < chain_segment@.len() && chain_segment@[k].root == q)
                },
            },
    {
        // Structural pass: parent roots must chain and slots must be
        // strictly increasing.
        let n = chain_segment.len();
        let mut i: usize = 0;
        while n > 0 && i < n - 1
            invariant
                *self == *old(self),
                self.wf(),
                n == chain_segment@.len(),
                n > 0 ==> i <= n - 1,
                Self::spec_segment_fault(chain_segment@, 0) == Self::spec_segment_fault(
                    chain_segment@,
                    i as int,
                ),
            decreases n - i,
        {
            if chain_segment[i + 1].parent_root != chain_segment[i].root {
                proof {
                    assert(Self::spec_segment_fault(chain_segment@, i as int) == Some(
                        BlockError::NonLinearParentRoots,
                    ));
                }
                proof {
                    assert(Self::spec_segment_stopped_at(*old(self), *self, chain_segment@, 0, 0));
                }
                return ChainSegmentResult::Failed {
                    imported_blocks: 0,
                    error: BlockError::NonLinearParentRoots,
                };
            }
            if chain_segment[i + 1].slot <= chain_segment[i].slot {
                proof {
                    assert(Self::spec_segment_fault(chain_segment@, i as int) == Some(
                        BlockError::NonLinearSlots,
                    ));
                }
                proof {
                    assert(Self::spec_segment_stopped_at(*old(self), *self, chain_segment@, 0, 0));
                }
                return ChainSegmentResult::Failed {
                    imported_blocks: 0,
                    error: BlockError::NonLinearSlots,
                };
            }
            proof {
                assert(Self::spec_segment_fault(chain_segment@, i as int)
                    == Self::spec_segment_fault(chain_segment@, i as int + 1));
            }
            i = i + 1;
        }
        proof {
            assert(Self::spec_segment_fault(chain_segment@, 0) is None);
        }

        // Import pass: skip irrelevant blocks, stop at the first failure.
        let mut imported_blocks: usize = 0;
        let mut rest = chain_segment;
        let n0: usize = rest.len();
        let mut first_import_attempted = false;
        let ghost mut done: int = 0;
        while rest.len() > 0
            invariant
                self.wf(),
                self.clock_slot == old(self).clock_slot,
                old(self).clock_slot is Some,
                imported_blocks + rest@.len() <= n0,
                n0 == chain_segment@.len(),
                done == n0 - rest@.len(),
                imported_blocks <= done,
                rest@ == chain_segment@.subrange(done, n0 as int),
                self.canonical_head == old(self).canonical_head,
                self.genesis_block_root == old(self).genesis_block_root,
                forall|q: u64|
                    old(self).store.blocks@.contains_key(q)
                        ==> self.store.blocks@.contains_key(q),
                forall|k: int|
                    0 <= k < done ==> Self::spec_segment_block_done(
                        *old(self),
                        *self,
                        chain_segment@[k],
                    ),
                forall|q: u64| #[trigger]
                    self.fork_choice.spec_contains(q) ==> old(self).fork_choice.spec_contains(q)
                        || (exists|k: int| 0 <= k < done && chain_segment@[k].root == q),
                Self::spec_segment_fault(chain_segment@, 0) is None,
                self.fork_choice.nodes@.len() == old(self).fork_choice.nodes@.len()
                    + imported_blocks,
                rest@.len() == n0 ==> *self == *old(self) && rest@ == chain_segment@,
                rest@.len() < n0 ==> first_import_attempted,
                first_import_attempted && (old(self).spec_gossip_check(
                    chain_segment@[0],
                ) is None && old(self).spec_full_check(chain_segment@[0]) is None && !old(
                    self,
                ).spec_wss_conflict(
                    old(self).spec_pre_state(chain_segment@[0]).apply(chain_segment@[0]@),
                ) && old(self).fork_choice.nodes@.len() < usize::MAX - 1 && !old(
                    self,
                ).store.fail_next_write) ==> imported_blocks >= 1,
            decreases rest@.len(),
        {
            let ghost was_first = rest@.len() == n0;
            let ghost idx = done;
            let ghost rest_before = rest@;
            let block = rest.remove(0);
            first_import_attempted = true;
            proof {
                done = done + 1;
                assert(block == rest_before[0]);
                assert(block == chain_segment@[idx]);
                assert(rest@ =~= chain_segment@.subrange(idx + 1, n0 as int)) by {
                    assert(rest@ =~= rest_before.subrange(1, rest_before.len() as int));
                }
            }
            let ghost self_before = *self;
            match self.process_block(block) {
                Ok(_) => {
                    imported_blocks = imported_blocks + 1;
                    proof {
                        assert(self.store.blocks@.contains_key(chain_segment@[idx].root));
                        assert(self.fork_choice.spec_contains(chain_segment@[idx].root));
                        assert forall|k: int|
                            0 <= k < done implies Self::spec_segment_block_done(
                            *old(self),
                            *self,
                            chain_segment@[k],
                        ) by {
                            if k < idx {
                                assert(Self::spec_segment_block_done(
                                    *old(self),
                                    self_before,
                                    chain_segment@[k],
                                ));
                            }
                        }
                    }
                },
                Err(BlockError::BlockIsAlreadyKnown) => {
                    proof {
                        assert(self_before.fork_choice.spec_contains(block.root));
                        assert(self.store.blocks@.contains_key(block.root));
                    }
                },
                Err(BlockError::GenesisBlock) => {},
                Err(BlockError::WouldRevertFinalizedSlot { .. }) => {},
                Err(error) => {
                    proof {
                        if !(error matches BlockError::BeaconChainError { .. }) {
                            assert(self.fork_choice.index_of@
                                == self_before.fork_choice.index_of@);
                            assert(imported_blocks <= idx < chain_segment@.len());
                            assert forall|q: u64| #[trigger]
                                self.fork_choice.spec_contains(q) implies old(
                                self,
                            ).fork_choice.spec_contains(q) || (exists|k: int|
                                0 <= k < idx && chain_segment@[k].root == q) by {
                                assert(self_before.fork_choice.spec_contains(q));
                            }
                            assert(Self::spec_segment_stopped_at(
                                *old(self),
                                *self,
                                chain_segment@,
                                imported_blocks as int,
                                idx,
                            ));
                        }
                    }
                    return ChainSegmentResult::Failed { imported_blocks, error };
                },
            }
        }
        proof {
            assert(done == n0);
        }
        ChainSegmentResult::Successful { imported_blocks }
    }
}

/// The root a chain with tip `(head_root, at state)` has at slot `s`:
/// the tip root at or above the state's slot, the recorded historical
/// root within the window, nothing outside it.
pub open spec fn spec_chain_root_at(state: StateSummary, head_root: u64, s: u64) -> Option<u64> {
    if s >= state.slot {
        Some(head_root)
    } else {
        state.spec_block_root_at(s)
    }
}

/// The aligned backward walk of two chains from slot `s` down: the first
/// slot where both chains record the same root, or nothing when a chain
/// runs out of recorded history first.
pub open spec fn spec_reorg_walk(
    old_state: StateSummary,
    old_root: u64,
    new_state: StateSummary,
    new_root: u64,
    s: u64,
) -> Option<u64>
    decreases s,
{
    match (spec_chain_root_at(old_state, old_root, s), spec_chain_root_at(new_state, new_root, s)) {
        (Some(a), Some(b)) => if a == b {
            Some(s)
        } else if s == 0 {
            None
        } else {
            spec_reorg_walk(old_state, old_root, new_state, new_root, (s - 1) as u64)
        },
        _ => None,
    }
}

impl BeaconChain {
    /// Find the slot where the chain of `new_state` intersects the current
    /// head's chain: both ancestor-root walks are stepped backward in lock
    /// step from the lower of the two head slots. If no common ancestor is
    /// found within the historical-roots window, the previous finalized
    /// slot is reported — a safe approximation that never claims a
    /// smaller depth than the truth.
    pub fn find_reorg_slot(&self, new_state: &StateSummary, new_block_root: u64) -> (r: Result<
        u64,
        ChainError,
    >)
        requires
            self.wf(),
            new_state.wf(),
        ensures
            match r {
                Ok(s) => {
                    let lowest = if new_state.slot <= self.canonical_head.beacon_state.slot {
                        new_state.slot
                    } else {
                        self.canonical_head.beacon_state.slot
                    };
                    s == (match spec_reorg_walk(
                        self.canonical_head.beacon_state,
                        self.canonical_head.beacon_block_root,
                        *new_state,
                        new_block_root,
                        lowest,
                    ) {
                        Some(found) => found,
                        None => (self.canonical_head.beacon_state.finalized.epoch
                            * SLOTS_PER_EPOCH) as u64,
                    })
                },
                Err(_) => false,
            },
    {
        let old_state = &self.canonical_head.beacon_state;
        let old_root = self.canonical_head.beacon_block_root;
        let lowest = if new_state.slot <= old_state.slot {
            new_state.slot
        } else {
            old_state.slot
        };
        let ghost walk_start = lowest;
        let ghost mut walk_result: Option<u64> = None;
        let mut s = lowest;
        loop
            invariant
                self.wf(),
                new_state.wf(),
                old_state == &self.canonical_head.beacon_state,
                old_root == self.canonical_head.beacon_block_root,
                walk_start == (if new_state.slot <= self.canonical_head.beacon_state.slot {
                    new_state.slot
                } else {
                    self.canonical_head.beacon_state.slot
                }),
                s <= walk_start,
                spec_reorg_walk(*old_state, old_root, *new_state, new_block_root, walk_start)
                    == spec_reorg_walk(*old_state, old_root, *new_state, new_block_root, s),
            ensures
                walk_result is None,
                walk_start == (if new_state.slot <= self.canonical_head.beacon_state.slot {
                    new_state.slot
                } else {
                    self.canonical_head.beacon_state.slot
                }),
                spec_reorg_walk(
                    self.canonical_head.beacon_state,
                    self.canonical_head.beacon_block_root,
                    *new_state,
                    new_block_root,
                    walk_start,
                ) == walk_result,
                self.wf(),
            decreases s,
        {
            let a = if s >= old_state.slot {
                Some(old_root)
            } else {
                old_state.block_root_at(s)
            };
            let b = if s >= new_state.slot {
                Some(new_block_root)
            } else {
                new_state.block_root_at(s)
            };
            proof {
                assert(a == spec_chain_root_at(*old_state, old_root, s));
                assert(b == spec_chain_root_at(*new_state, new_block_root, s));
            }
            match (a, b) {
                (Some(ra), Some(rb)) => {
                    if ra == rb {
                        proof {
                            walk_result = Some(s);
                            assert(spec_reorg_walk(
                                *old_state,
                                old_root,
                                *new_state,
                                new_block_root,
                                s,
                            ) == Some(s));
                        }
                        return Ok(s);
                    }
                    if s == 0 {
                        proof {
                            walk_result = None;
                            assert(spec_reorg_walk(
                                *old_state,
                                old_root,
                                *new_state,
                                new_block_root,
                                s,
                            ) is None);
                        }
                        break ;
                    }
                    proof {
                        assert(spec_reorg_walk(
                            *old_state,
                            old_root,
                            *new_state,
                            new_block_root,
                            s,
                        ) == spec_reorg_walk(
                            *old_state,
                            old_root,
                            *new_state,
                            new_block_root,
                            (s - 1) as u64,
                        ));
                    }
                    s = s - 1;
                },
                _ => {
                    proof {
                        walk_result = None;
                        assert(spec_reorg_walk(
                            *old_state,
                            old_root,
                            *new_state,
                            new_block_root,
                            s,
                        ) is None);
                    }
                    break ;
                },
            }
        }
        proof {
            assert(self.canonical_head.beacon_state.finalized.epoch < MAX_SLOT);
        }
        Ok(self.canonical_head.beacon_state.finalized.epoch * SLOTS_PER_EPOCH)
    }

    /// Persist the head tracker and the fork-choice structure.
    pub fn persist_head_and_fork_choice(&mut self)
        requires
            old(self).wf(),
        ensures
            final(self).wf(),
            final(self).store.persisted_fork_choice is Some,
            final(self).store.persisted_fork_choice->0.nodes@ == old(self).fork_choice.nodes@,
            final(self).store.persisted_fork_choice->0.index_of@ == old(
                self,
            ).fork_choice.index_of@,
            final(self).store.persisted_fork_choice->0.votes@ == old(self).fork_choice.votes@,
            final(self).store.persisted_fork_choice->0.justified_checkpoint == old(
                self,
            ).fork_choice.justified_checkpoint,
            final(self).store.persisted_fork_choice->0.finalized_checkpoint == old(
                self,
            ).fork_choice.finalized_checkpoint,
            final(self).store.persisted_heads is Some,
            (final(self).store.persisted_heads->0).0 == old(self).genesis_block_root,
            (final(self).store.persisted_heads->0).1@ == old(self).head_tracker.heads@,
            final(self).store.blocks@ == old(self).store.blocks@,
            final(self).store.states@ == old(self).store.states@,
            final(self).fork_choice == old(self).fork_choice,
            final(self).canonical_head == old(self).canonical_head,
            final(self).events@ == old(self).events@,
            final(self).head_tracker == old(self).head_tracker,
            final(self).clock_slot == old(self).clock_slot,
            final(self).early_attester_cache == old(self).early_attester_cache,
    {
        let heads = self.head_tracker.heads();
        self.store.persist_heads(self.genesis_block_root, heads);
        let fc = &self.fork_choice;
        self.store.persist_fork_choice(fc);
        proof {
            let pfc = self.store.persisted_fork_choice->0;
            assert forall|rt: u64| #[trigger]
                pfc.spec_contains(rt) implies self.store.blocks@.contains_key(rt) by {
                assert(self.fork_choice.spec_contains(rt));
            }
            assert forall|rt: u64| #[trigger]
                pfc.spec_contains(rt) implies self.store.states@.contains_key(
                pfc.spec_node_of(rt).state_root,
            ) by {
                assert(self.fork_choice.spec_contains(rt));
                assert(pfc.spec_node_of(rt) == self.fork_choice.spec_node_of(rt));
            }
        }
    }

    /// Whether a slot precedes the merge fork.
    pub fn slot_is_prior_to_bellatrix(&self, slot: u64) -> (r: bool)
        ensures
            r == match self.spec.bellatrix_fork_epoch {
                Some(b) => spec_epoch_of(slot) < b,
                None => true,
            },
    {
        match self.spec.bellatrix_fork_epoch {
            Some(b) => slot / SLOTS_PER_EPOCH < b,
            None => true,
        }
    }

    /// Payload-validity status of the current head block.
    pub fn head_safety_status(&self) -> (r: Result<HeadSafetyStatus, ChainError>)
        requires
            self.wf(),
        ensures
            match r {
                Ok(status) => {
                    &&& self.fork_choice.spec_contains(self.canonical_head.beacon_block_root)
                    &&& status == (match self.fork_choice.spec_node_of(
                        self.canonical_head.beacon_block_root,
                    ).execution_status {
                        ExecutionStatus::Valid(h) => HeadSafetyStatus::Safe(Some(h)),
                        ExecutionStatus::Invalid(h) => HeadSafetyStatus::Invalid(h),
                        ExecutionStatus::Optimistic(h) => HeadSafetyStatus::Unsafe(h),
                        ExecutionStatus::Irrelevant => HeadSafetyStatus::Safe(None),
                    })
                },
                Err(e) => e == (ChainError::HeadMissingFromForkChoice {
                    beacon_block_root: self.canonical_head.beacon_block_root,
                }) && !self.fork_choice.spec_contains(self.canonical_head.beacon_block_root),
            },
    {
        let head_root = self.canonical_head.beacon_block_root;
        match self.fork_choice.get_block(head_root) {
            Some(node) => Ok(
                match node.execution_status {
                    ExecutionStatus::Valid(h) => HeadSafetyStatus::Safe(Some(h)),
                    ExecutionStatus::Invalid(h) => HeadSafetyStatus::Invalid(h),
                    ExecutionStatus::Optimistic(h) => HeadSafetyStatus::Unsafe(h),
                    ExecutionStatus::Irrelevant => HeadSafetyStatus::Safe(None),
                },
            ),
            None => Err(ChainError::HeadMissingFromForkChoice { beacon_block_root: head_root }),
        }
    }
}

impl BeaconChain {
    /// Finalization-triggered maintenance: prune fork choice to the
    /// finalized subtree, drop observation records and attester-cache
    /// entries below the finalized epoch, prune old pool attestations and
    /// emit the finalized-checkpoint event.
    pub fn after_finalization(
        &mut self,
        new_finalized_checkpoint: Checkpoint,
        new_finalized_state_root: u64,
    ) -> (r: Result<(), ChainError>)
        requires
            old(self).wf(),
            new_finalized_checkpoint.epoch < MAX_SLOT,
        ensures
            r is Ok,
            final(self).wf(),
            forall|rt: u64| #[trigger]
                final(self).fork_choice.spec_contains(rt) ==> old(
                    self,
                ).fork_choice.spec_contains(rt) && final(self).fork_choice.spec_node_of(
                    rt,
                ).execution_status == old(self).fork_choice.spec_node_of(rt).execution_status,
            final(self).events@ == old(self).events@.push(
                EventKind::FinalizedCheckpoint {
                    epoch: new_finalized_checkpoint.epoch,
                    block: new_finalized_checkpoint.root,
                    state: new_finalized_state_root,
                },
            ),
            final(self).canonical_head == old(self).canonical_head,
            final(self).store.blocks@ == old(self).store.blocks@,
            final(self).store.states@ == old(self).store.states@,
            final(self).store.persisted_fork_choice == old(self).store.persisted_fork_choice,
            final(self).store.persisted_heads == old(self).store.persisted_heads,
            final(self).clock_slot == old(self).clock_slot,
            final(self).head_tracker == old(self).head_tracker,
            final(self).el_updates@ == old(self).el_updates@,
            final(self).shutdown_requests@ == old(self).shutdown_requests@,
            final(self).early_attester_cache == old(self).early_attester_cache,
            // Finalization-triggered pruning: attester-cache entries below
            // the finalized epoch, proposal records below its first slot
            // and stale pool attestations are gone.
            forall|e: ((u64, u64), (Checkpoint, u64))| #[trigger]
                final(self).attester_cache.entries@.contains(e) == (old(
                    self,
                ).attester_cache.entries@.contains(e) && (e.0).0
                    >= new_finalized_checkpoint.epoch),
            forall|pr: (u64, u64)| #[trigger]
                final(self).observed_block_producers.seen@.contains(pr) == (old(
                    self,
                ).observed_block_producers.seen@.contains(pr) && pr.0
                    >= new_finalized_checkpoint.epoch * SLOTS_PER_EPOCH),
            forall|k: int|
                0 <= k < final(self).op_pool.attestations@.len()
                    ==> (#[trigger] final(self).op_pool.attestations@[k]).data.target.epoch + 1
                    >= new_finalized_checkpoint.epoch,
    {
        let ghost fin_idx = old(self).fork_choice.index_of@[old(
            self,
        ).fork_choice.finalized_checkpoint.root] as int;
        let ghost just_idx = old(self).fork_choice.index_of@[old(
            self,
        ).fork_choice.justified_checkpoint.root] as int;
        let _pruned = self.fork_choice.prune();
        proof {
            assert forall|rt: u64| #[trigger]
                self.fork_choice.spec_contains(rt) implies self.store.blocks@.contains_key(
                rt,
            ) by {
                if crate::fork_choice::spec_is_ancestor(
                    old(self).fork_choice.nodes@,
                    fin_idx,
                    just_idx,
                ) {
                    assert(old(self).fork_choice.spec_contains(rt));
                } else {
                    assert(self.fork_choice.index_of@ == old(self).fork_choice.index_of@);
                    assert(old(self).fork_choice.spec_contains(rt));
                }
            }
            assert forall|rt: u64| #[trigger]
                self.fork_choice.spec_contains(rt) implies self.store.states@.contains_key(
                self.fork_choice.spec_node_of(rt).state_root,
            ) by {
                if crate::fork_choice::spec_is_ancestor(
                    old(self).fork_choice.nodes@,
                    fin_idx,
                    just_idx,
                ) {
                    assert(old(self).fork_choice.spec_contains(rt));
                    assert(self.fork_choice.spec_node_of(rt).state_root == old(
                        self,
                    ).fork_choice.spec_node_of(rt).state_root);
                } else {
                    assert(self.fork_choice.nodes@ == old(self).fork_choice.nodes@);
                    assert(old(self).fork_choice.spec_contains(rt));
                }
            }
        }
        self.observed_block_producers.prune_below(
            new_finalized_checkpoint.epoch * SLOTS_PER_EPOCH,
        );
        self.op_pool.prune_attestations(new_finalized_checkpoint.epoch);
        self.attester_cache.prune_below(new_finalized_checkpoint.epoch);
        self.events.push(
            EventKind::FinalizedCheckpoint {
                epoch: new_finalized_checkpoint.epoch,
                block: new_finalized_checkpoint.root,
                state: new_finalized_state_root,
            },
        );
        Ok(())
    }

    /// Compute the next fork-choice update for the execution engine and
    /// append it to the ordered update queue. Nothing is sent before the
    /// merge fork, when the head is unknown to fork choice, or when the
    /// head has no payload yet.
    pub fn update_execution_engine_forkchoice(&mut self, current_slot: u64) -> (r: Result<
        Option<ElUpdateRequest>,
        ChainError,
    >)
        requires
            old(self).wf(),
            current_slot < MAX_SLOT,
        ensures
            final(self).wf(),
            final(self).fork_choice == old(self).fork_choice,
            final(self).canonical_head == old(self).canonical_head,
            final(self).store == old(self).store,
            final(self).events@ == old(self).events@,
            final(self).clock_slot == old(self).clock_slot,
            final(self).shutdown_requests@ == old(self).shutdown_requests@,
            final(self).duty_computations == old(self).duty_computations,
            final(self).early_attester_cache == old(self).early_attester_cache,
            final(self).op_pool == old(self).op_pool,
            final(self).attester_cache == old(self).attester_cache,
            final(self).observed_block_producers == old(self).observed_block_producers,
            // An update is owed exactly when the next slot is past the
            // merge fork, the head is tracked and its payload hash known.
            r matches Ok(Some(_)) <==> ((match old(self).spec.bellatrix_fork_epoch {
                Some(b) => spec_epoch_of((current_slot + 1) as u64) >= b,
                None => false,
            }) && old(self).fork_choice.spec_contains(
                old(self).canonical_head.beacon_block_root,
            ) && old(self).fork_choice.spec_node_of(
                old(self).canonical_head.beacon_block_root,
            ).execution_status.spec_block_hash() is Some),
            match r {
                Ok(Some(req)) => {
                    &&& final(self).el_updates@ == old(self).el_updates@.push(req)
                    &&& req.slot == current_slot
                    &&& req.head_block_root == old(self).canonical_head.beacon_block_root
                    &&& Some(req.head_hash) == old(self).fork_choice.spec_node_of(
                        req.head_block_root,
                    ).execution_status.spec_block_hash()
                    // The finalized hash is the finalized node's, or zero
                    // for a pre-merge finalized block.
                    &&& req.finalized_hash == crate::fork_choice::spec_hash_or_zero(
                        old(self).fork_choice.spec_node_of(
                            old(self).fork_choice.finalized_checkpoint.root,
                        ).execution_status,
                    )
                },
                Ok(None) => final(self).el_updates@ == old(self).el_updates@,
                Err(_) => false,
            },
    {
        if self.slot_is_prior_to_bellatrix(current_slot + 1) {
            return Ok(None);
        }
        let head_root = self.canonical_head.beacon_block_root;
        let head_node = match self.fork_choice.get_block(head_root) {
            Some(node) => node,
            None => {
                return Ok(None);
            },
        };
        let head_hash = match head_node.execution_status.block_hash() {
            Some(h) => h,
            None => {
                return Ok(None);
            },
        };
        let finalized_node = self.fork_choice.get_finalized_block();
        let finalized_hash = match finalized_node.execution_status.block_hash() {
            Some(h) => h,
            None => 0,
        };
        let req = ElUpdateRequest {
            head_block_root: head_root,
            head_hash,
            finalized_hash,
            slot: current_slot,
        };
        self.el_updates.push(req);
        Ok(Some(req))
    }

    /// Determine the proposer of the next slot — through the proposer
    /// cache when possible — and, when the execution layer has
    /// registration data for that proposer, submit payload-building
    /// parameters ahead of time.
    ///
    /// A cache hit answers without re-running duty computation. A request
    /// whose head is more than a few epochs stale is skipped to protect an
    /// unhealthy node, as is a cache miss more than two epochs ahead of
    /// the head.
    /// The decision root the proposer lookup for `current_slot + 1` is
    /// keyed by: the head state's proposer decision root within the head
    /// epoch, the head block root beyond it.
    pub open spec fn spec_prepare_decision_root(self, current_slot: u64) -> u64 {
        let prepare_slot = (current_slot + 1) as u64;
        let head_epoch = spec_epoch_of(self.canonical_head.beacon_state.slot);
        if head_epoch == spec_epoch_of(prepare_slot) {
            self.canonical_head.beacon_state.spec_proposer_decision_root()
        } else {
            self.canonical_head.beacon_block_root
        }
    }

    /// Whether the proposer cache already answers the lookup for
    /// `current_slot + 1`.
    pub open spec fn spec_proposer_cached(self, current_slot: u64) -> bool {
        crate::caches::spec_proposer_row(
            self.beacon_proposer_cache.entries@,
            spec_epoch_of((current_slot + 1) as u64),
            self.spec_prepare_decision_root(current_slot),
        ) is Some
    }

    /// The proposer the preparation routine settles on, if it runs at
    /// all: before the merge fork, with no registrations, with a stale
    /// head, or on a cache miss too far ahead, nothing is prepared; a
    /// cached shuffling answers directly, and otherwise the duty is
    /// computed from the head state.
    pub open spec fn spec_prepared_proposer(self, current_slot: u64) -> Option<u64> {
        let prepare_slot = (current_slot + 1) as u64;
        let prepare_epoch = spec_epoch_of(prepare_slot);
        let head_slot = self.canonical_head.beacon_state.slot;
        let head_epoch = spec_epoch_of(head_slot);
        let decision_root = self.spec_prepare_decision_root(current_slot);
        if (match self.spec.bellatrix_fork_epoch {
            Some(b) => prepare_epoch < b,
            None => true,
        }) {
            None
        } else if self.el.proposer_preparation@.len() == 0 {
            None
        } else if head_slot + SLOTS_PER_EPOCH * PREPARE_PROPOSER_HISTORIC_EPOCHS
            < current_slot {
            None
        } else {
            match crate::caches::spec_proposer_row(
                self.beacon_proposer_cache.entries@,
                prepare_epoch,
                decision_root,
            ) {
                Some(row) => Some(row.0[prepare_slot as int % SLOTS_PER_EPOCH as int]),
                None => {
                    if head_epoch + 2 < prepare_epoch {
                        None
                    } else {
                        Some(
                            spec_proposer_for(
                                decision_root,
                                prepare_slot,
                                self.canonical_head.beacon_state.validator_count,
                            ),
                        )
                    }
                },
            }
        }
    }

    pub fn prepare_beacon_proposer(&mut self, current_slot: u64) -> (r: Result<
        Option<(u64, PayloadAttributes)>,
        ChainError,
    >)
        requires
            old(self).wf(),
            current_slot < MAX_SLOT,
        ensures
            final(self).wf(),
            final(self).fork_choice == old(self).fork_choice,
            final(self).canonical_head == old(self).canonical_head,
            final(self).store == old(self).store,
            final(self).events@ == old(self).events@,
            final(self).clock_slot == old(self).clock_slot,
            final(self).early_attester_cache == old(self).early_attester_cache,
            final(self).el.proposer_preparation@ == old(self).el.proposer_preparation@,
            final(self).op_pool == old(self).op_pool,
            final(self).attester_cache == old(self).attester_cache,
            final(self).observed_block_producers == old(self).observed_block_producers,
            r is Ok,
            old(self).spec_proposer_cached(current_slot) ==> final(self).duty_computations
                == old(self).duty_computations,
            // A skipped preparation — before the merge fork, with no
            // registrations, with a stale head, or on a cache miss too
            // far ahead — computes no duties and submits nothing to the
            // execution layer.
            old(self).spec_prepared_proposer(current_slot) is None ==> final(self).duty_computations == old(self).duty_computations && final(self).el.prepared@
                == old(self).el.prepared@,
            // Preparation is owed exactly when a proposer is due and the
            // execution layer holds a registration for it; the proposer
            // comes from the cache row or the duty computation, and the
            // submitted attributes are pinned.
            match r->Ok_0 {
                Some((proposer, attributes)) => {
                    &&& old(self).spec_prepared_proposer(current_slot) == Some(proposer)
                    &&& Some(attributes.suggested_fee_recipient)
                        == ExecutionLayerView::spec_first_fee(
                        old(self).el.proposer_preparation@,
                        proposer,
                    )
                    &&& attributes.timestamp == current_slot + 1
                    &&& attributes.prev_randao == old(self).canonical_head.beacon_state.randao
                    // The submitted attributes join the queue under the
                    // prepare slot and the head root, unless that key was
                    // already submitted.
                    &&& final(self).el.prepared@ == (if (exists|k: int|
                        0 <= k < old(self).el.prepared@.len() && (#[trigger] old(
                            self,
                        ).el.prepared@[k]).0 == current_slot + 1 && old(self).el.prepared@[k].1
                            == old(self).canonical_head.beacon_block_root) {
                        old(self).el.prepared@
                    } else {
                        old(self).el.prepared@.push(
                            (
                                (current_slot + 1) as u64,
                                old(self).canonical_head.beacon_block_root,
                                proposer,
                                attributes,
                            ),
                        )
                    })
                },
                None => {
                    &&& final(self).el.prepared@ == old(self).el.prepared@
                    &&& {
                        ||| old(self).spec_prepared_proposer(current_slot) is None
                        ||| ExecutionLayerView::spec_first_fee(
                            old(self).el.proposer_preparation@,
                            old(self).spec_prepared_proposer(current_slot)->0,
                        ) is None
                    }
                },
            },
    {
        let prepare_slot = current_slot + 1;
        let prepare_epoch = prepare_slot / SLOTS_PER_EPOCH;
        if self.slot_is_prior_to_bellatrix(prepare_slot) {
            return Ok(None);
        }
        if !self.el.has_any_proposer_preparation_data() {
            return Ok(None);
        }
        let head_slot = self.canonical_head.beacon_state.slot;
        let head_epoch = head_slot / SLOTS_PER_EPOCH;
        // Skip proposer preparation when the head is badly stale.
        if head_slot + SLOTS_PER_EPOCH * PREPARE_PROPOSER_HISTORIC_EPOCHS < current_slot {
            return Ok(None);
        }
        let decision_root = if head_epoch == prepare_epoch {
            self.canonical_head.beacon_state.proposer_decision_root()
        } else {
            self.canonical_head.beacon_block_root
        };
        let proposer: u64 = match self.beacon_proposer_cache.get_slot(decision_root, prepare_slot)
        {
            Some(cached) => cached.index,
            None => {
                if head_epoch + 2 < prepare_epoch {
                    // Do not skip the head forward more than two epochs;
                    // chain health beats payload pre-building.
                    return Ok(None);
                }
                // Full duty computation for the epoch, then prime the
                // cache.
                if self.duty_computations < u64::MAX {
                    self.duty_computations = self.duty_computations + 1;
                }
                let vc = self.canonical_head.beacon_state.validator_count;
                let start: u64 = prepare_epoch * SLOTS_PER_EPOCH;
                let mut proposers: Vec<u64> = Vec::new();
                let mut k: u64 = 0;
                while k < SLOTS_PER_EPOCH
                    invariant
                        k <= SLOTS_PER_EPOCH,
                        proposers@.len() == k,
                        1 <= vc <= crate::state::MAX_VALIDATORS,
                        prepare_epoch < MAX_SLOT,
                        start == prepare_epoch * SLOTS_PER_EPOCH,
                        forall|m: int|
                            0 <= m < k ==> #[trigger] proposers@[m] == spec_proposer_for(
                                decision_root,
                                (start + m) as u64,
                                vc,
                            ),
                    decreases SLOTS_PER_EPOCH - k,
                {
                    proposers.push(proposer_for(decision_root, start + k, vc));
                    k = k + 1;
                }
                let fork = self.canonical_head.beacon_state.fork_version;
                let p = proposer_for(decision_root, prepare_slot, vc);
                self.beacon_proposer_cache.insert(
                    prepare_epoch,
                    decision_root,
                    proposers,
                    fork,
                );
                p
            },
        };
        // Without registration data for this validator the execution
        // layer is not connected to it; nothing to prepare.
        let fee_recipient = match self.el.get_suggested_fee_recipient(proposer) {
            Some(f) => f,
            None => {
                return Ok(None);
            },
        };
        let payload_attributes = PayloadAttributes {
            timestamp: prepare_slot,
            prev_randao: self.canonical_head.beacon_state.randao,
            suggested_fee_recipient: fee_recipient,
        };
        let _already_known = self.el.insert_proposer(
            prepare_slot,
            self.canonical_head.beacon_block_root,
            proposer,
            payload_attributes,
        );
        Ok(Some((proposer, payload_attributes)))
    }
}

impl BeaconChain {
    /// The root head selection would pick right now.
    pub open spec fn spec_head_winner_root(self) -> u64 {
        self.fork_choice.nodes@[spec_head_index(self.fork_choice)].root
    }

    /// The stored post-state of the block head selection would pick.
    pub open spec fn spec_winner_state(self) -> StateSummary {
        self.store.states@[self.fork_choice.spec_node_of(
            self.spec_head_winner_root(),
        ).state_root]
    }

    /// The fatal head-selection inconsistencies: the conditions under
    /// which enthroning the winner must fail rather than move the head.
    pub open spec fn spec_head_selection_blocked(self) -> bool {
        &&& self.spec_head_winner_root() != self.canonical_head.beacon_block_root
        &&& {
            ||| self.fork_choice.spec_node_of(
                self.fork_choice.finalized_checkpoint.root,
            ).execution_status is Invalid
            ||| self.spec_winner_state().finalized.epoch
                < self.canonical_head.beacon_state.finalized.epoch
            ||| {
                let ws = self.spec_winner_state();
                &&& ws.finalized.epoch != self.canonical_head.beacon_state.finalized.epoch
                &&& ws.finalized.epoch * SLOTS_PER_EPOCH < ws.slot
                &&& ws.spec_state_root_at((ws.finalized.epoch * SLOTS_PER_EPOCH) as u64) is None
            }
        }
    }

    /// Execute the fork-choice head-selection routine at `slot` and
    /// enthrone the winner as the canonical head.
    ///
    /// Idempotent when the winner is already the head. A candidate whose
    /// finalized epoch moved backward is a fatal inconsistency, as is a
    /// finalized block with an invalidated payload — both are rejected,
    /// the latter with a shutdown request. After a head swap the early
    /// attester cache is cleared, events are emitted, the head is
    /// persisted on epoch transitions and re-orgs, finalization-triggered
    /// pruning runs when the finalized epoch moved, and the execution
    /// engine's view and proposer preparation are refreshed.
    pub fn fork_choice_internal(&mut self, current_slot: u64) -> (r: Result<(), ChainError>)
        requires
            old(self).wf(),
            current_slot < MAX_SLOT,
        ensures
            final(self).wf(),
            final(self).clock_slot == old(self).clock_slot,
            forall|rt: u64| #[trigger]
                final(self).fork_choice.spec_contains(rt) ==> old(
                    self,
                ).fork_choice.spec_contains(rt) && final(self).fork_choice.spec_node_of(
                    rt,
                ).execution_status == old(self).fork_choice.spec_node_of(rt).execution_status,
            old(self).events@.is_prefix_of(final(self).events@),
            // Success is owed whenever no fatal inconsistency holds:
            // selection cannot silently decline to enthrone the winner.
            !old(self).spec_head_selection_blocked() ==> r is Ok,
            match r {
                Ok(()) => {
                    // The head is exactly the fork-choice winner, the
                    // finalized epoch never decreases across a successful
                    // head selection, and selection is idempotent: when
                    // the winner is already the head, nothing changes.
                    &&& final(self).canonical_head.beacon_block_root == old(
                        self,
                    ).fork_choice.nodes@[spec_head_index(old(self).fork_choice)].root
                    &&& final(self).canonical_head.beacon_state.finalized.epoch >= old(
                        self,
                    ).canonical_head.beacon_state.finalized.epoch
                    &&& (old(self).fork_choice.nodes@[spec_head_index(old(self).fork_choice)].root
                        == old(self).canonical_head.beacon_block_root ==> *final(self) == *old(
                        self,
                    ))
                    // The early attester cache is only valid relative to
                    // the previous head: every head change clears it.
                    &&& (old(self).fork_choice.nodes@[spec_head_index(old(self).fork_choice)].root
                        != old(self).canonical_head.beacon_block_root
                        ==> final(self).early_attester_cache.entry is None)
                    // The enthroned snapshot is the winner's stored block
                    // and post-state; nothing is invented.
                    &&& (old(self).spec_head_winner_root() != old(
                        self,
                    ).canonical_head.beacon_block_root ==> {
                        &&& final(self).canonical_head.beacon_block@ == old(
                            self,
                        ).store.blocks@[old(self).spec_head_winner_root()]@
                        &&& final(self).canonical_head.beacon_state@ == old(
                            self,
                        ).spec_winner_state()@
                    })
                    // Success certifies that no fatal inconsistency held:
                    // a winner that would move the head is never enthroned
                    // over an invalidated finalized payload or a lesser
                    // finalized epoch.
                    &&& !(old(self).spec_head_winner_root() != old(
                        self,
                    ).canonical_head.beacon_block_root && old(self).fork_choice.spec_node_of(
                        old(self).fork_choice.finalized_checkpoint.root,
                    ).execution_status is Invalid)
                    &&& !(old(self).spec_head_winner_root() != old(
                        self,
                    ).canonical_head.beacon_block_root && old(
                        self,
                    ).spec_winner_state().finalized.epoch < old(
                        self,
                    ).canonical_head.beacon_state.finalized.epoch)
                    // On an epoch transition or a re-org the swapped head
                    // and fork choice are persisted, and the attestation
                    // pool is pruned to the wall-clock epoch (further to
                    // the new finalized epoch when finalization moved).
                    &&& (old(self).spec_head_winner_root() != old(
                        self,
                    ).canonical_head.beacon_block_root && (spec_epoch_of(
                        old(self).canonical_head.beacon_state.slot,
                    ) < spec_epoch_of(old(self).spec_winner_state().slot) || !(match old(
                        self,
                    ).spec_winner_state().spec_block_root_at(
                        old(self).canonical_head.beacon_state.slot,
                    ) {
                        Some(rt) => rt == old(self).canonical_head.beacon_block_root,
                        None => false,
                    })) ==> {
                        &&& final(self).store.persisted_fork_choice is Some
                        &&& final(self).store.persisted_fork_choice->0.nodes@ == old(
                            self,
                        ).fork_choice.nodes@
                        &&& final(self).store.persisted_heads is Some
                        &&& (old(self).spec_winner_state().finalized.epoch == old(
                            self,
                        ).canonical_head.beacon_state.finalized.epoch ==> forall|k: int|
                            0 <= k < final(self).op_pool.attestations@.len()
                                ==> (#[trigger] final(self).op_pool.attestations@[k]).data.target.epoch
                                + 1 >= spec_epoch_of(current_slot))
                    })
                    // When finalization advanced, finalization-triggered
                    // pruning ran: the finalized-checkpoint event is
                    // emitted and records below the new finalized epoch
                    // are gone.
                    &&& (old(self).spec_head_winner_root() != old(
                        self,
                    ).canonical_head.beacon_block_root && old(
                        self,
                    ).spec_winner_state().finalized.epoch != old(
                        self,
                    ).canonical_head.beacon_state.finalized.epoch ==> {
                        let fin = old(self).spec_winner_state().finalized;
                        &&& exists|st: u64| #[trigger]
                            final(self).events@.contains(
                                EventKind::FinalizedCheckpoint {
                                    epoch: fin.epoch,
                                    block: fin.root,
                                    state: st,
                                },
                            )
                        &&& forall|e: ((u64, u64), (Checkpoint, u64))| #[trigger]
                            final(self).attester_cache.entries@.contains(e) ==> (e.0).0
                                >= fin.epoch
                        &&& forall|pr: (u64, u64)| #[trigger]
                            final(self).observed_block_producers.seen@.contains(pr) ==> pr.0
                                >= fin.epoch * SLOTS_PER_EPOCH
                        &&& forall|k: int|
                            0 <= k < final(self).op_pool.attestations@.len()
                                ==> (#[trigger] final(self).op_pool.attestations@[k]).data.target.epoch
                                + 1 >= fin.epoch
                    })
                },
                Err(e) => {
                    &&& final(self).canonical_head == old(self).canonical_head
                    // Selection fails exactly on an invalidated finalized
                    // payload, a finality reversion, or a finalized state
                    // root outside the recorded window — in that order.
                    &&& (e matches ChainError::RevertedFinalizedEpoch { .. } || e matches
                        ChainError::InvalidFinalizedPayload { .. } || e matches
                        ChainError::MissingFinalizedStateRoot { .. })
                    &&& (e matches ChainError::InvalidFinalizedPayload { .. } <==> (old(
                        self,
                    ).spec_head_winner_root() != old(self).canonical_head.beacon_block_root
                        && old(self).fork_choice.spec_node_of(
                        old(self).fork_choice.finalized_checkpoint.root,
                    ).execution_status is Invalid))
                    &&& (e matches ChainError::RevertedFinalizedEpoch { .. } <==> (old(
                        self,
                    ).spec_head_winner_root() != old(self).canonical_head.beacon_block_root
                        && !(old(self).fork_choice.spec_node_of(
                        old(self).fork_choice.finalized_checkpoint.root,
                    ).execution_status is Invalid) && old(self).spec_winner_state().finalized.epoch
                        < old(self).canonical_head.beacon_state.finalized.epoch))
                    &&& (e matches ChainError::MissingFinalizedStateRoot { .. } <==> {
                        let winner_state = old(self).spec_winner_state();
                        let old_fin = old(self).canonical_head.beacon_state.finalized.epoch;
                        &&& old(self).spec_head_winner_root() != old(
                            self,
                        ).canonical_head.beacon_block_root
                        &&& !(old(self).fork_choice.spec_node_of(
                            old(self).fork_choice.finalized_checkpoint.root,
                        ).execution_status is Invalid)
                        &&& winner_state.finalized.epoch >= old_fin
                        &&& winner_state.finalized.epoch != old_fin
                        &&& winner_state.finalized.epoch * SLOTS_PER_EPOCH < winner_state.slot
                        &&& winner_state.spec_state_root_at(
                            (winner_state.finalized.epoch * SLOTS_PER_EPOCH) as u64,
                        ) is None
                    })
                    &&& (e matches ChainError::InvalidFinalizedPayload { .. }
                        ==> final(self).shutdown_requests@ == old(
                        self,
                    ).shutdown_requests@.push(ShutdownReason::InvalidFinalizedPayload))
                    // The error payloads report the actual old and new
                    // values, not invented ones.
                    &&& (e matches ChainError::RevertedFinalizedEpoch {
                        previous_epoch,
                        new_epoch,
                    } ==> previous_epoch == old(self).canonical_head.beacon_state.finalized.epoch
                        && new_epoch == old(self).spec_winner_state().finalized.epoch)
                    &&& (e matches ChainError::InvalidFinalizedPayload {
                        finalized_root,
                        execution_block_hash,
                    } ==> finalized_root == old(self).fork_choice.finalized_checkpoint.root
                        && Some(execution_block_hash) == old(self).fork_choice.spec_node_of(
                        old(self).fork_choice.finalized_checkpoint.root,
                    ).execution_status.spec_block_hash())
                },
            },
    {
        let beacon_block_root = match self.fork_choice.get_head(current_slot) {
            Ok(root) => root,
            Err(e) => {
                // Unreachable: the callers' preconditions and the
                // structure's well-formedness rule this arm out.
                proof {
                    assert(false);
                }
                return Err(ChainError::UnableToReadSlot);
            },
        };
        let finalized_block = self.fork_choice.get_finalized_block();
        let current_head_root = self.canonical_head.beacon_block_root;
        let current_head_slot = self.canonical_head.beacon_state.slot;
        let old_finalized_checkpoint = self.canonical_head.beacon_state.finalized;

        // Head selection is a no-op when nothing changed.
        if beacon_block_root == current_head_root {
            return Ok(());
        }

        // A finalized block with an invalidated payload means local
        // canonical history is compromised: request shutdown.
        if finalized_block.execution_status.is_invalid() {
            let block_hash = match finalized_block.execution_status.block_hash() {
                Some(h) => h,
                None => 0,
            };
            self.shutdown_requests.push(ShutdownReason::InvalidFinalizedPayload);
            return Err(
                ChainError::InvalidFinalizedPayload {
                    finalized_root: finalized_block.root,
                    execution_block_hash: block_hash,
                },
            );
        }

        // Load the new head snapshot from storage; every tracked block
        // and its post-state are stored, by the engine's invariant.
        let winner_node = match self.fork_choice.get_block(beacon_block_root) {
            Some(n) => n,
            None => {
                proof {
                    assert(false);
                }
                return Err(ChainError::MissingBeaconBlock { block_root: beacon_block_root });
            },
        };
        let new_head_block = match self.store.get_block(beacon_block_root) {
            Some(b) => b,
            None => {
                proof {
                    assert(false);
                }
                return Err(ChainError::MissingBeaconBlock { block_root: beacon_block_root });
            },
        };
        let new_head_state = match self.store.get_state(winner_node.state_root) {
            Some(st) => st,
            None => {
                proof {
                    assert(false);
                }
                return Err(
                    ChainError::MissingBeaconState { state_root: winner_node.state_root },
                );
            },
        };
        proof {
            crate::state::lemma_wf_from_view(
                self.store.states@[winner_node.state_root],
                new_head_state,
            );
        }

        // A candidate not passing through the current head's history is a
        // re-org; measure its depth with the aligned ancestor walk.
        let is_reorg = match new_head_state.block_root_at(current_head_slot) {
            Some(rt) => rt != current_head_root,
            None => true,
        };
        let mut reorg_distance: u64 = 0;
        if is_reorg {
            match self.find_reorg_slot(&new_head_state, beacon_block_root) {
                Ok(slot) => {
                    if slot <= current_head_slot {
                        reorg_distance = current_head_slot - slot;
                    }
                },
                Err(_) => {},
            }
        }

        // It is an error to enthrone a head with a lesser finalized epoch.
        let new_finalized_checkpoint = new_head_state.finalized;
        if new_finalized_checkpoint.epoch < old_finalized_checkpoint.epoch {
            return Err(
                ChainError::RevertedFinalizedEpoch {
                    previous_epoch: old_finalized_checkpoint.epoch,
                    new_epoch: new_finalized_checkpoint.epoch,
                },
            );
        }

        let is_epoch_transition = current_head_slot / SLOTS_PER_EPOCH < new_head_state.slot
            / SLOTS_PER_EPOCH;
        let head_slot = new_head_state.slot;
        let new_state_root = new_head_state.current_state_root;

        // Find the finalized state root before swapping, in case
        // finalization advanced.
        let finalization_advanced = new_finalized_checkpoint.epoch
            != old_finalized_checkpoint.epoch;
        let mut new_finalized_state_root: u64 = 0;
        if finalization_advanced {
            proof {
                assert(new_head_state.finalized.epoch < MAX_SLOT);
            }
            let fin_slot = new_finalized_checkpoint.epoch * SLOTS_PER_EPOCH;
            new_finalized_state_root = if fin_slot >= new_head_state.slot {
                new_head_state.current_state_root
            } else {
                match new_head_state.state_root_at(fin_slot) {
                    Some(rt) => rt,
                    None => {
                        return Err(ChainError::MissingFinalizedStateRoot { slot: fin_slot });
                    },
                }
            };
        }

        // Swap the head. The early attester cache is only valid relative
        // to the previous head.
        self.early_attester_cache.clear();
        self.canonical_head = BeaconSnapshot {
            beacon_block: new_head_block,
            beacon_block_root,
            beacon_state: new_head_state,
        };
        self.block_times_cache.set_time_set_as_head(beacon_block_root, head_slot, current_slot);

        self.events.push(
            EventKind::Head {
                slot: head_slot,
                block: beacon_block_root,
                state: new_state_root,
                epoch_transition: is_epoch_transition,
            },
        );
        if is_reorg {
            self.events.push(
                EventKind::ChainReorg {
                    slot: head_slot,
                    depth: reorg_distance,
                    old_head_block: current_head_root,
                    new_head_block: beacon_block_root,
                },
            );
        }

        // Persist on epoch transitions and re-orgs, and prune the pool.
        if is_epoch_transition || is_reorg {
            self.persist_head_and_fork_choice();
            self.op_pool.prune_attestations(current_slot / SLOTS_PER_EPOCH);
        }

        // Finalization-triggered pruning.
        if finalization_advanced {
            proof {
                assert(self.canonical_head.beacon_state.finalized.epoch < MAX_SLOT);
            }
            let _after = self.after_finalization(
                new_finalized_checkpoint,
                new_finalized_state_root,
            );
            proof {
                assert(self.events@.last() == (EventKind::FinalizedCheckpoint {
                    epoch: new_finalized_checkpoint.epoch,
                    block: new_finalized_checkpoint.root,
                    state: new_finalized_state_root,
                }));
                assert(self.events@.contains(self.events@.last()));
            }
        }

        // Refresh the execution engine's view and proposer preparation;
        // their failures are liveness issues, never consensus faults.
        let _el = self.update_execution_engine_forkchoice(current_slot);
        let _prep = self.prepare_beacon_proposer(current_slot);
        proof {
            if finalization_advanced {
                assert(self.events@.contains(
                    EventKind::FinalizedCheckpoint {
                        epoch: new_finalized_checkpoint.epoch,
                        block: new_finalized_checkpoint.root,
                        state: new_finalized_state_root,
                    },
                ));
            }
        }
        Ok(())
    }

    /// Execute fork choice at the wall-clock slot.
    pub fn fork_choice_run(&mut self) -> (r: Result<(), ChainError>)
        requires
            old(self).wf(),
        ensures
            final(self).wf(),
            final(self).clock_slot == old(self).clock_slot,
    {
        let slot = match self.slot() {
            Ok(s) => s,
            Err(e) => {
                return Err(e);
            },
        };
        if slot >= MAX_SLOT {
            return Err(ChainError::ArithmeticOverflow);
        }
        self.fork_choice_at_slot(slot)
    }

    /// Execute fork choice at `slot`.
    pub fn fork_choice_at_slot(&mut self, slot: u64) -> (r: Result<(), ChainError>)
        requires
            old(self).wf(),
            slot < MAX_SLOT,
        ensures
            final(self).wf(),
            final(self).clock_slot == old(self).clock_slot,
            forall|rt: u64| #[trigger]
                final(self).fork_choice.spec_contains(rt) ==> old(
                    self,
                ).fork_choice.spec_contains(rt) && final(self).fork_choice.spec_node_of(
                    rt,
                ).execution_status == old(self).fork_choice.spec_node_of(rt).execution_status,
            !old(self).spec_head_selection_blocked() ==> r is Ok,
            r is Ok ==> final(self).canonical_head.beacon_block_root == old(
                self,
            ).spec_head_winner_root() && final(self).canonical_head.beacon_state.finalized.epoch
                >= old(self).canonical_head.beacon_state.finalized.epoch,
            r is Err ==> final(self).canonical_head == old(self).canonical_head,
    {
        self.fork_choice_internal(slot)
    }

    /// The per-slot timer task: run head selection, then prune the
    /// aggregation pools and the timing cache.
    pub fn per_slot_task(&mut self)
        requires
            old(self).wf(),
        ensures
            final(self).wf(),
            final(self).clock_slot == old(self).clock_slot,
            // With a readable, in-range clock the aggregation pools are
            // pruned to the look-back window of the current slot.
            (old(self).clock_slot is Some && old(self).clock_slot->0 < MAX_SLOT) ==> {
                let floor = if old(self).clock_slot->0 > crate::pool::POOL_SLOTS_RETAINED {
                    (old(self).clock_slot->0 - crate::pool::POOL_SLOTS_RETAINED) as u64
                } else {
                    0u64
                };
                &&& final(self).naive_aggregation_pool.lowest_permissible_slot == floor
                &&& final(self).naive_sync_aggregation_pool.lowest_permissible_slot == floor
                &&& forall|k: int|
                    0 <= k < final(self).naive_aggregation_pool.entries@.len()
                        ==> (#[trigger] final(self).naive_aggregation_pool.entries@[k]).0.slot
                        >= floor
                // The block-timing records are pruned to the look-back
                // window of the current slot.
                &&& forall|m: int|
                    0 <= m < final(self).block_times_cache.entries@.len()
                        ==> (#[trigger] final(self).block_times_cache.entries@[m]).1 + 64
                        >= old(self).clock_slot->0
                // Head selection ran at the wall-clock slot: unless a
                // fatal inconsistency held, the winner is enthroned; and
                // the head never moves anywhere but to the winner.
                &&& (!old(self).spec_head_selection_blocked() ==> final(self).canonical_head.beacon_block_root == old(self).spec_head_winner_root())
                &&& (final(self).canonical_head.beacon_block_root == old(
                    self,
                ).spec_head_winner_root() || final(self).canonical_head == old(
                    self,
                ).canonical_head)
            },
    {
        match self.slot() {
            Ok(slot) => {
                if slot < MAX_SLOT {
                    let _run = self.fork_choice_at_slot(slot);
                    self.naive_aggregation_pool.prune(slot);
                    self.naive_sync_aggregation_pool.prune(slot);
                    self.block_times_cache.prune(slot);
                }
            },
            Err(_) => {},
        }
    }

    /// Apply an execution-engine invalidation ruling: mark the named
    /// blocks invalid in fork choice, re-run head selection (the winner
    /// may change), and treat an invalidated justified block as fatal.
    pub fn process_invalid_execution_payload(&mut self, op: &InvalidationOperation) -> (r: Result<
        (),
        ChainError,
    >)
        requires
            old(self).wf(),
        ensures
            final(self).wf(),
            final(self).clock_slot == old(self).clock_slot,
            old(self).fork_choice.spec_contains(op.spec_block_root()) ==> forall|rt: u64|
                #[trigger] final(self).fork_choice.spec_contains(rt) ==> old(
                    self,
                ).fork_choice.spec_contains(rt) && final(self).fork_choice.spec_node_of(
                    rt,
                ).execution_status == spec_status_after(
                    old(self).fork_choice.nodes@,
                    old(self).fork_choice.index_of@,
                    *op,
                    old(self).fork_choice.index_of@[rt] as int,
                ),
            // The call fails exactly when the justified block ends up
            // invalid — an unrecoverable condition that also requests
            // shutdown; otherwise it succeeds.
            r is Ok <==> !(final(self).fork_choice.spec_node_of(
                final(self).fork_choice.justified_checkpoint.root,
            ).execution_status is Invalid),
            match r {
                Ok(()) => true,
                Err(e) => e == (ChainError::JustifiedPayloadInvalid {
                    justified_root: final(self).fork_choice.justified_checkpoint.root,
                }) && final(self).shutdown_requests@.last()
                    == ShutdownReason::InvalidJustifiedPayload,
            },
    {
        let invalidated = self.fork_choice.on_invalid_execution_payload(op);
        proof {
            assert forall|rt: u64| #[trigger]
                self.fork_choice.spec_contains(rt) implies self.store.blocks@.contains_key(
                rt,
            ) by {
                assert(old(self).fork_choice.spec_contains(rt));
            }
            assert forall|rt: u64| #[trigger]
                self.fork_choice.spec_contains(rt) implies self.store.states@.contains_key(
                self.fork_choice.spec_node_of(rt).state_root,
            ) by {
                assert(old(self).fork_choice.spec_contains(rt));
                match invalidated {
                    Ok(()) => {
                        assert(self.fork_choice.spec_node_of(rt).state_root == old(
                            self,
                        ).fork_choice.spec_node_of(rt).state_root);
                    },
                    Err(_) => {
                        assert(self.fork_choice.spec_node_of(rt) == old(
                            self,
                        ).fork_choice.spec_node_of(rt));
                    },
                }
            }
        }

        // Re-run head selection: the invalidation may change the winner.
        match self.slot() {
            Ok(slot) => {
                if slot < MAX_SLOT {
                    let _rerun = self.fork_choice_at_slot(slot);
                }
            },
            Err(_) => {},
        }

        // An invalid justified checkpoint cannot be recovered from.
        let justified_block = self.fork_choice.get_justified_block();
        if justified_block.execution_status.is_invalid() {
            self.shutdown_requests.push(ShutdownReason::InvalidJustifiedPayload);
            return Err(
                ChainError::JustifiedPayloadInvalid { justified_root: justified_block.root },
            );
        }
        Ok(())
    }

    /// Digest the execution engine's response to a fork-choice update.
    ///
    /// `Valid` confirms the head's payload chain; `Syncing` and `Accepted`
    /// change nothing; the invalid responses drive the invalidation
    /// protocol and surface as an error.
    pub fn on_forkchoice_updated_response(
        &mut self,
        request: &ElUpdateRequest,
        status: PayloadStatus,
    ) -> (r: Result<(), ChainError>)
        requires
            old(self).wf(),
        ensures
            final(self).wf(),
            final(self).clock_slot == old(self).clock_slot,
            (status == PayloadStatus::Syncing || status == PayloadStatus::Accepted) ==> r is Ok
                && *final(self) == *old(self),
            // A `Valid` ruling always succeeds; when the requested head
            // is tracked and not already invalidated, every node on its
            // payload chain is marked valid, and otherwise nothing moves.
            status == PayloadStatus::Valid ==> r is Ok,
            (status == PayloadStatus::Valid && old(self).fork_choice.spec_contains(
                request.head_block_root,
            ) && !(old(self).fork_choice.spec_node_of(
                request.head_block_root,
            ).execution_status is Invalid)) ==> forall|j: int|
                0 <= j < old(self).fork_choice.nodes@.len()
                    ==> final(self).fork_choice.nodes@[j] == (ProtoNode {
                    execution_status: if crate::fork_choice::spec_valid_hits(
                        old(self).fork_choice.nodes@,
                        old(self).fork_choice.index_of@[request.head_block_root] as int,
                        j,
                    ) {
                        ExecutionStatus::Valid(
                            crate::fork_choice::spec_hash_or_zero(
                                old(self).fork_choice.nodes@[j].execution_status,
                            ),
                        )
                    } else {
                        old(self).fork_choice.nodes@[j].execution_status
                    },
                    ..old(self).fork_choice.nodes@[j]
                }),
            (status == PayloadStatus::Valid && !(old(self).fork_choice.spec_contains(
                request.head_block_root,
            ) && !(old(self).fork_choice.spec_node_of(
                request.head_block_root,
            ).execution_status is Invalid))) ==> final(self).fork_choice.nodes@ == old(
                self,
            ).fork_choice.nodes@,
            // The invalid rulings run the matching invalidation protocol
            // and surface it: the update-invalid error, unless the
            // justified block itself ended up invalid, which is fatal and
            // requests shutdown.
            match status {
                PayloadStatus::Invalid { .. } | PayloadStatus::InvalidTerminalBlock
                    | PayloadStatus::InvalidBlockHash => {
                    &&& r is Err
                    &&& (r == Err::<(), ChainError>(ChainError::ExecutionForkChoiceUpdateInvalid)
                        <==> !(final(self).fork_choice.spec_node_of(
                        final(self).fork_choice.justified_checkpoint.root,
                    ).execution_status is Invalid))
                    &&& (r != Err::<(), ChainError>(ChainError::ExecutionForkChoiceUpdateInvalid)
                        ==> r == Err::<(), ChainError>(
                        ChainError::JustifiedPayloadInvalid {
                            justified_root: final(self).fork_choice.justified_checkpoint.root,
                        },
                    ) && final(self).shutdown_requests@.last()
                        == ShutdownReason::InvalidJustifiedPayload)
                    // When the requested head is tracked, the statuses
                    // after the call are exactly the invalidation
                    // operation's outcome.
                    &&& (old(self).fork_choice.spec_contains(request.head_block_root)
                        ==> forall|rt: u64| #[trigger]
                        final(self).fork_choice.spec_contains(rt) ==> old(
                            self,
                        ).fork_choice.spec_contains(rt) && final(self).fork_choice.spec_node_of(
                            rt,
                        ).execution_status == spec_status_after(
                            old(self).fork_choice.nodes@,
                            old(self).fork_choice.index_of@,
                            (match status {
                                PayloadStatus::Invalid { latest_valid_hash } => (
                                InvalidationOperation::InvalidateMany {
                                    head_block_root: request.head_block_root,
                                    always_invalidate_head: true,
                                    latest_valid_ancestor: latest_valid_hash,
                                }),
                                _ => (InvalidationOperation::InvalidateOne {
                                    block_root: request.head_block_root,
                                }),
                            }),
                            old(self).fork_choice.index_of@[rt] as int,
                        ))
                },
                _ => true,
            },
    {
        match status {
            PayloadStatus::Valid => {
                // The payload chain through the head is confirmed.
                let validated = self.fork_choice.on_valid_execution_payload(
                    request.head_block_root,
                );
                proof {
                    assert forall|rt: u64| #[trigger]
                        self.fork_choice.spec_contains(
                            rt,
                        ) implies self.store.blocks@.contains_key(rt) by {
                        assert(old(self).fork_choice.spec_contains(rt));
                    }
                    assert forall|rt: u64| #[trigger]
                        self.fork_choice.spec_contains(
                            rt,
                        ) implies self.store.states@.contains_key(
                        self.fork_choice.spec_node_of(rt).state_root,
                    ) by {
                        assert(old(self).fork_choice.spec_contains(rt));
                        match validated {
                            Ok(()) => {
                                assert(self.fork_choice.spec_node_of(rt).state_root == old(
                                    self,
                                ).fork_choice.spec_node_of(rt).state_root);
                            },
                            Err(_) => {
                                assert(self.fork_choice.spec_node_of(rt) == old(
                                    self,
                                ).fork_choice.spec_node_of(rt));
                            },
                        }
                    }
                }
                Ok(())
            },
            PayloadStatus::Syncing => Ok(()),
            PayloadStatus::Accepted => Ok(()),
            PayloadStatus::Invalid { latest_valid_hash } => {
                let op = InvalidationOperation::InvalidateMany {
                    head_block_root: request.head_block_root,
                    always_invalidate_head: true,
                    latest_valid_ancestor: latest_valid_hash,
                };
                match self.process_invalid_execution_payload(&op) {
                    Ok(()) => Err(ChainError::ExecutionForkChoiceUpdateInvalid),
                    Err(e) => Err(e),
                }
            },
            PayloadStatus::InvalidTerminalBlock | PayloadStatus::InvalidBlockHash => {
                let op = InvalidationOperation::InvalidateOne {
                    block_root: request.head_block_root,
                };
                match self.process_invalid_execution_payload(&op) {
                    Ok(()) => Err(ChainError::ExecutionForkChoiceUpdateInvalid),
                    Err(e) => Err(e),
                }
            },
        }
    }
}

/// One-signer attestation that passed gossip verification.
#[derive(Debug)]
pub struct VerifiedUnaggregatedAttestation {
    pub attestation: Attestation,
}

/// Aggregate attestation that passed gossip verification.
#[derive(Debug)]
pub struct VerifiedAggregatedAttestation {
    pub attestation: Attestation,
    pub aggregator_index: u64,
}

/// One validator's sync-committee message.
#[derive(Clone, Copy, PartialEq, Eq, Structural, Debug)]
pub struct SyncCommitteeMessage {
    pub slot: u64,
    pub beacon_block_root: u64,
    pub validator_index: u64,
}

/// A sync-committee message that passed gossip verification.
#[derive(Clone, Copy, PartialEq, Eq, Structural, Debug)]
pub struct VerifiedSyncCommitteeMessage {
    pub message: SyncCommitteeMessage,
    pub subnet_id: u64,
}

/// A signed sync contribution that passed gossip verification.
#[derive(Debug)]
pub struct VerifiedSyncContribution {
    pub data: SyncContributionData,
    pub aggregator_index: u64,
    pub signers: Vec<u64>,
}

impl BeaconChain {
    /// Committees serving `(head_block_root, shuffling_epoch)`: from the
    /// shuffling cache on a hit; computed from the block's decision root
    /// (loading its state) and cached on a miss. Hit or miss, the result
    /// is the pure committee computation's answer for the key.
    pub fn with_committee_cache(&mut self, head_block_root: u64, shuffling_epoch: u64) -> (r:
        Result<(Committees, u64), ChainError>)
        requires
            old(self).wf(),
        ensures
            final(self).wf(),
            final(self).fork_choice == old(self).fork_choice,
            final(self).store == old(self).store,
            final(self).canonical_head == old(self).canonical_head,
            final(self).events@ == old(self).events@,
            final(self).clock_slot == old(self).clock_slot,
            // A servable key is answered: the lookup fails exactly on an
            // untracked block, a shuffling too old for the block's state,
            // or an epoch out of the state's (or the model's) range.
            r is Ok <==> (old(self).fork_choice.spec_contains(head_block_root) && {
                let node = old(self).fork_choice.spec_node_of(head_block_root);
                let st = old(self).store.states@[node.state_root];
                &&& !(shuffling_epoch < u64::MAX && spec_epoch_of(node.slot) > shuffling_epoch
                    + 1)
                &&& shuffling_epoch <= spec_epoch_of(st.slot) + 1
                &&& shuffling_epoch < MAX_SLOT
            }),
            match r {
                Ok((committees, decision_root)) => {
                    let node = old(self).fork_choice.spec_node_of(head_block_root);
                    let st = old(self).store.states@[node.state_root];
                    &&& committees.wf()
                    &&& committees.epoch == shuffling_epoch
                    // The decision root is the state's attester decision
                    // root and the registry is the state's: a cache hit
                    // and a recomputed miss answer identically, as both
                    // equal the pure committee computation for this key.
                    &&& decision_root == st.spec_attester_decision_root(shuffling_epoch)
                    &&& committees.decision_root == decision_root
                    &&& committees.validator_count == st.validator_count
                    &&& committees.view_lists() == crate::caches::spec_committees_for(
                        shuffling_epoch,
                        decision_root,
                        st.validator_count,
                    )
                },
                Err(e) => {
                    ||| (e == (ChainError::MissingBeaconBlock { block_root: head_block_root })
                        && !old(self).fork_choice.spec_contains(head_block_root))
                    ||| e matches ChainError::InvalidStateForShuffling { .. }
                    ||| e matches ChainError::ArithmeticOverflow
                },
            },
    {
        let head_block = match self.fork_choice.get_block(head_block_root) {
            Some(node) => node,
            None => {
                return Err(ChainError::MissingBeaconBlock { block_root: head_block_root });
            },
        };
        let head_block_epoch = head_block.slot / SLOTS_PER_EPOCH;
        if shuffling_epoch < u64::MAX && head_block_epoch > shuffling_epoch + 1 {
            // The block's state is too new for such an old shuffling.
            return Err(
                ChainError::InvalidStateForShuffling {
                    state_epoch: head_block_epoch,
                    shuffling_epoch,
                },
            );
        }
        // Determine the shuffling decision root from the block's state;
        // the state is stored, by the engine's invariant.
        let state = match self.store.get_state(head_block.state_root) {
            Some(st) => st,
            None => {
                proof {
                    assert(false);
                }
                return Err(
                    ChainError::MissingBeaconState { state_root: head_block.state_root },
                );
            },
        };
        proof {
            crate::state::lemma_wf_from_view(self.store.states@[head_block.state_root], state);
        }
        if shuffling_epoch > state.current_epoch() + 1 || shuffling_epoch >= MAX_SLOT {
            return Err(ChainError::ArithmeticOverflow);
        }
        let decision_root = state.attester_decision_root(shuffling_epoch);
        match self.shuffling_cache.get(shuffling_epoch, decision_root) {
            Some(committees) => {
                if committees.validator_count == state.validator_count {
                    return Ok((committees, decision_root));
                }
                // A cached entry for another registry size cannot serve
                // this chain; fall through to recomputation.
            },
            None => {},
        }
        let committees = compute_committees(
            shuffling_epoch,
            decision_root,
            state.validator_count,
        );
        self.shuffling_cache.insert(copy_committees_helper(&committees));
        Ok((committees, decision_root))
    }

    /// Attestation duties of the given validators at `(epoch,
    /// head_block_root)`: for each validator, the slot of the epoch whose
    /// committee holds it, when one does.
    pub fn validator_attestation_duties(
        &mut self,
        validator_indices: &Vec<u64>,
        epoch: u64,
        head_block_root: u64,
    ) -> (r: Result<(Vec<Option<u64>>, u64), ChainError>)
        requires
            old(self).wf(),
        ensures
            final(self).wf(),
            final(self).clock_slot == old(self).clock_slot,
            match r {
                Ok((duties, dependent_root)) => {
                    let node = old(self).fork_choice.spec_node_of(head_block_root);
                    let st = old(self).store.states@[node.state_root];
                    &&& duties@.len() == validator_indices@.len()
                    &&& dependent_root == st.spec_attester_decision_root(epoch)
                    // Each validator's duty is the first slot of the
                    // epoch whose committee holds it, if any does.
                    &&& forall|i: int|
                        0 <= i < duties@.len() ==> match #[trigger] duties@[i] {
                            Some(d) => d < SLOTS_PER_EPOCH && crate::state::spec_committee(
                                dependent_root,
                                (spec_start_slot(epoch) + d) as u64,
                                st.validator_count,
                            ).contains(validator_indices@[i]) && (forall|d2: int|
                                0 <= d2 < d ==> !(#[trigger] crate::state::spec_committee(
                                    dependent_root,
                                    (spec_start_slot(epoch) + d2) as u64,
                                    st.validator_count,
                                )).contains(validator_indices@[i])),
                            None => forall|d2: int|
                                0 <= d2 < SLOTS_PER_EPOCH ==> !(
                                #[trigger] crate::state::spec_committee(
                                    dependent_root,
                                    (spec_start_slot(epoch) + d2) as u64,
                                    st.validator_count,
                                )).contains(validator_indices@[i]),
                        }
                },
                Err(_) => true,
            },
    {
        let (committees, dependent_root) = match self.with_committee_cache(
            head_block_root,
            epoch,
        ) {
            Ok(pair) => pair,
            Err(e) => {
                return Err(e);
            },
        };
        let ghost vc = committees.validator_count;
        let mut duties: Vec<Option<u64>> = Vec::new();
        let mut k: usize = 0;
        while k < validator_indices.len()
            invariant
                duties@.len() == k,
                k <= validator_indices@.len(),
                committees.wf(),
                committees.epoch == epoch,
                committees.decision_root == dependent_root,
                vc == committees.validator_count,
                epoch < MAX_SLOT,
                forall|i: int|
                    0 <= i < k ==> match #[trigger] duties@[i] {
                        Some(d) => d < SLOTS_PER_EPOCH && crate::state::spec_committee(
                            dependent_root,
                            (spec_start_slot(epoch) + d) as u64,
                            vc,
                        ).contains(validator_indices@[i]) && (forall|d2: int|
                            0 <= d2 < d ==> !(#[trigger] crate::state::spec_committee(
                                dependent_root,
                                (spec_start_slot(epoch) + d2) as u64,
                                vc,
                            )).contains(validator_indices@[i])),
                        None => forall|d2: int|
                            0 <= d2 < SLOTS_PER_EPOCH ==> !(
                            #[trigger] crate::state::spec_committee(
                                dependent_root,
                                (spec_start_slot(epoch) + d2) as u64,
                                vc,
                            )).contains(validator_indices@[i]),
                    },
            decreases validator_indices@.len() - k,
        {
            let v = validator_indices[k];
            let mut duty: Option<u64> = None;
            let mut slot_in_epoch: usize = 0;
            while slot_in_epoch < committees.per_slot.len()
                invariant_except_break
                    duty is None,
                invariant
                    committees.wf(),
                    committees.epoch == epoch,
                    committees.decision_root == dependent_root,
                    vc == committees.validator_count,
                    epoch < MAX_SLOT,
                    slot_in_epoch <= committees.per_slot@.len(),
                    forall|d2: int|
                        0 <= d2 < slot_in_epoch ==> !(#[trigger] crate::state::spec_committee(
                            dependent_root,
                            (spec_start_slot(epoch) + d2) as u64,
                            vc,
                        )).contains(v),
                ensures
                    match duty {
                        Some(d) => d < SLOTS_PER_EPOCH && crate::state::spec_committee(
                            dependent_root,
                            (spec_start_slot(epoch) + d) as u64,
                            vc,
                        ).contains(v) && (forall|d2: int|
                            0 <= d2 < d ==> !(#[trigger] crate::state::spec_committee(
                                dependent_root,
                                (spec_start_slot(epoch) + d2) as u64,
                                vc,
                            )).contains(v)),
                        None => forall|d2: int|
                            0 <= d2 < SLOTS_PER_EPOCH ==> !(
                            #[trigger] crate::state::spec_committee(
                                dependent_root,
                                (spec_start_slot(epoch) + d2) as u64,
                                vc,
                            )).contains(v),
                    },
                decreases committees.per_slot@.len() - slot_in_epoch,
            {
                let committee = &committees.per_slot[slot_in_epoch];
                proof {
                    assert(committees.view_lists()[slot_in_epoch as int] == committee@);
                    assert(committee@ == crate::state::spec_committee(
                        dependent_root,
                        (spec_start_slot(epoch) + slot_in_epoch) as u64,
                        vc,
                    ));
                }
                let mut m: usize = 0;
                let mut found = false;
                while m < committee.len()
                    invariant_except_break
                        !found,
                        forall|q: int| 0 <= q < m ==> committee@[q] != v,
                    invariant
                        m <= committee@.len(),
                    ensures
                        found == committee@.contains(v),
                    decreases committee@.len() - m,
                {
                    if committee[m] == v {
                        found = true;
                        proof {
                            assert(committee@[m as int] == v);
                        }
                        break ;
                    }
                    m = m + 1;
                }
                if found {
                    duty = Some(slot_in_epoch as u64);
                    break ;
                }
                slot_in_epoch = slot_in_epoch + 1;
            }
            duties.push(duty);
            k = k + 1;
        }
        Ok((duties, dependent_root))
    }

    /// The root of the first block at or before `slot` on the fork-choice
    /// ancestor chain starting at node index `i`; `None` when the walk
    /// runs off the tree.
    pub open spec fn spec_fc_ancestor_at(nodes: Seq<ProtoNode>, i: int, slot: u64) -> Option<u64>
        decreases i,
    {
        if i < 0 || i >= nodes.len() {
            None
        } else if nodes[i].slot <= slot {
            Some(nodes[i].root)
        } else {
            match nodes[i].parent {
                Some(p) => if p < i {
                    Self::spec_fc_ancestor_at(nodes, p as int, slot)
                } else {
                    None
                },
                None => None,
            }
        }
    }

    /// Whether the shuffling behind an attestation to `block_root` at
    /// `target_epoch` matches the shuffling of `state`: vacuously true in
    /// the first two epochs (of the state or the target), false for a
    /// target that is neither the state's current nor previous epoch, and
    /// otherwise true exactly when the fork-choice ancestor of
    /// `block_root` at the pivot slot (the last slot of `target_epoch -
    /// 2`) is the state's recorded block root there.
    pub open spec fn spec_shuffling_compatible(
        self,
        block_root: u64,
        target_epoch: u64,
        state: StateSummary,
    ) -> bool {
        let current_epoch = spec_epoch_of(state.slot);
        if current_epoch < 2 {
            true
        } else if !(target_epoch == current_epoch || (current_epoch >= 1 && target_epoch
            == current_epoch - 1)) {
            false
        } else if target_epoch < 2 {
            true
        } else {
            let pivot_slot = (((target_epoch - 1) * SLOTS_PER_EPOCH) - 1) as u64;
            match state.spec_block_root_at(pivot_slot) {
                Some(rt) => self.fork_choice.spec_contains(block_root)
                    && Self::spec_fc_ancestor_at(
                    self.fork_choice.nodes@,
                    self.fork_choice.index_of@[block_root] as int,
                    pivot_slot,
                ) == Some(rt),
                None => false,
            }
        }
    }

    /// Whether the shuffling that verified an attestation to `block_root`
    /// at `target_epoch` matches the shuffling of `state`: the chains must
    /// agree on the block that decided the shuffling (the pivot).
    pub fn shuffling_is_compatible(
        &self,
        block_root: u64,
        target_epoch: u64,
        state: &StateSummary,
    ) -> (r: bool)
        requires
            self.wf(),
            state.wf(),
        ensures
            r == self.spec_shuffling_compatible(block_root, target_epoch, *state),
    {
        let current_epoch = state.current_epoch();
        // The shuffling cannot have diverged in the first few epochs.
        if current_epoch < 2 {
            return true;
        }
        if !(target_epoch == current_epoch || (current_epoch >= 1 && target_epoch == current_epoch
            - 1)) {
            return false;
        }
        if target_epoch < 2 {
            return true;
        }
        // The pivot: the last slot of `target_epoch - 2`.
        let pivot_slot = (target_epoch - 1) * SLOTS_PER_EPOCH - 1;
        let state_pivot_root = match state.block_root_at(pivot_slot) {
            Some(rt) => rt,
            None => {
                return false;
            },
        };
        // Walk the fork-choice chain of `block_root` down to the first
        // block at or before the pivot slot.
        let mut idx = match self.fork_choice.find_index(block_root) {
            Some(i) => i,
            None => {
                return false;
            },
        };
        loop
            invariant
                self.wf(),
                idx < self.fork_choice.nodes@.len(),
                spec_epoch_of(state.slot) >= 2,
                target_epoch == spec_epoch_of(state.slot) || (spec_epoch_of(state.slot) >= 1
                    && target_epoch == spec_epoch_of(state.slot) - 1),
                target_epoch >= 2,
                pivot_slot == (((target_epoch - 1) * SLOTS_PER_EPOCH) - 1) as u64,
                state.spec_block_root_at(pivot_slot) == Some(state_pivot_root),
                self.fork_choice.spec_contains(block_root),
                Self::spec_fc_ancestor_at(
                    self.fork_choice.nodes@,
                    self.fork_choice.index_of@[block_root] as int,
                    pivot_slot,
                ) == Self::spec_fc_ancestor_at(
                    self.fork_choice.nodes@,
                    idx as int,
                    pivot_slot,
                ),
            decreases idx,
        {
            let node = self.fork_choice.nodes[idx];
            if node.slot <= pivot_slot {
                return node.root == state_pivot_root;
            }
            match node.parent {
                Some(p) => {
                    idx = p;
                },
                None => {
                    return false;
                },
            }
        }
    }

    /// The first memoized answer for `key`, if any.
    pub open spec fn spec_filter_lookup(
        cache: Seq<((u64, u64), bool)>,
        key: (u64, u64),
    ) -> Option<bool>
        decreases cache.len(),
    {
        if cache.len() == 0 {
            None
        } else if cache[0].0 == key {
            Some(cache[0].1)
        } else {
            Self::spec_filter_lookup(cache.drop_first(), key)
        }
    }

    /// Filter an operation-pool attestation for shuffling compatibility,
    /// memoizing results per `(block root, target epoch)`.
    pub fn filter_op_pool_attestation(
        &self,
        filter_cache: &mut Vec<((u64, u64), bool)>,
        att: &Attestation,
        state: &StateSummary,
    ) -> (r: bool)
        requires
            self.wf(),
            state.wf(),
        ensures
            // A memoized key is answered from the memo and the memo is
            // unchanged; a fresh key is decided by the compatibility
            // check and recorded under the key.
            match Self::spec_filter_lookup(
                old(filter_cache)@,
                (att.data.beacon_block_root, att.data.target.epoch),
            ) {
                Some(v) => r == v && final(filter_cache)@ == old(filter_cache)@,
                None => r == self.spec_shuffling_compatible(
                    att.data.beacon_block_root,
                    att.data.target.epoch,
                    *state,
                ) && final(filter_cache)@ == old(filter_cache)@.push(
                    ((att.data.beacon_block_root, att.data.target.epoch), r),
                ),
            },
    {
        let key = (att.data.beacon_block_root, att.data.target.epoch);
        let mut k: usize = 0;
        proof {
            assert(filter_cache@.skip(0) =~= filter_cache@);
        }
        while k < filter_cache.len()
            invariant
                k <= filter_cache@.len(),
                filter_cache@ == old(filter_cache)@,
                Self::spec_filter_lookup(old(filter_cache)@, key)
                    == Self::spec_filter_lookup(filter_cache@.skip(k as int), key),
                key == (att.data.beacon_block_root, att.data.target.epoch),
            decreases filter_cache@.len() - k,
        {
            if filter_cache[k].0.0 == key.0 && filter_cache[k].0.1 == key.1 {
                proof {
                    assert(filter_cache@.skip(k as int)[0] == filter_cache@[k as int]);
                    assert(filter_cache@[k as int].0 == key);
                }
                return filter_cache[k].1;
            }
            proof {
                assert(filter_cache@.skip(k as int)[0] == filter_cache@[k as int]);
                assert(filter_cache@.skip(k as int).drop_first() =~= filter_cache@.skip(
                    k as int + 1,
                ));
            }
            k = k + 1;
        }
        proof {
            assert(filter_cache@.skip(k as int).len() == 0);
        }
        let fresh = self.shuffling_is_compatible(
            att.data.beacon_block_root,
            att.data.target.epoch,
            state,
        );
        filter_cache.push((key, fresh));
        fresh
    }
}

/// Copy a committees value (free-function form for call-site brevity).
fn copy_committees_helper(c: &Committees) -> (r: Committees)
    ensures
        r.epoch == c.epoch,
        r.decision_root == c.decision_root,
        r.validator_count == c.validator_count,
        r.view_lists() == c.view_lists(),
        c.wf() ==> r.wf(),
{
    crate::caches::copy_committees(c)
}

impl BeaconChain {
    /// Produce an unaggregated attestation for `(request_slot,
    /// request_index)`, always attesting to the canonical chain.
    ///
    /// The early attester cache answers first, so a pending head block
    /// can be attested to before its database write lands. Requests below
    /// finalization or outside the historical window are rejected, as is
    /// a head whose payload is not fully verified.
    /// Whether the early attester cache serves a request at this slot:
    /// its pending head lies in the request's epoch, within the historic
    /// window, and its target epoch matches.
    pub open spec fn spec_early_serves(self, request_slot: u64) -> bool {
        match self.early_attester_cache.entry {
            Some(entry) => {
                &&& spec_epoch_of(request_slot) == entry.epoch
                &&& request_slot >= entry.block.slot
                &&& entry.block.slot <= MAX_SLOT
                &&& request_slot <= entry.block.slot + EARLY_ATTESTER_CACHE_HISTORIC_SLOTS
                &&& entry.target.epoch == spec_epoch_of(request_slot)
            },
            None => false,
        }
    }

    /// The block root an attestation at `request_slot` votes for, read
    /// from the canonical head: the head itself at or above the head
    /// slot, the recorded historical root below it.
    pub open spec fn spec_attestation_root(self, request_slot: u64) -> u64 {
        if request_slot >= self.canonical_head.beacon_state.slot {
            self.canonical_head.beacon_block_root
        } else {
            self.canonical_head.beacon_state.spec_block_root_at(request_slot)->0
        }
    }

    /// The first failing check of head-based attestation production, if
    /// any: below finality, outside the historical window, an untracked
    /// vote target, an unconfirmed payload, or an epoch out of range.
    pub open spec fn spec_attestation_check(self, request_slot: u64) -> Option<ChainError> {
        let head = self.canonical_head.beacon_state;
        let finalized_slot = (head.finalized.epoch * SLOTS_PER_EPOCH) as u64;
        let lowest = if head.slot > SLOTS_PER_HISTORICAL_ROOT {
            (head.slot - SLOTS_PER_HISTORICAL_ROOT) as u64
        } else {
            0u64
        };
        if request_slot < finalized_slot {
            Some(ChainError::AttestingToFinalizedSlot { finalized_slot, request_slot })
        } else if request_slot < lowest {
            Some(
                ChainError::AttestingToAncientSlot {
                    lowest_permissible_slot: lowest,
                    request_slot,
                },
            )
        } else {
            let root = self.spec_attestation_root(request_slot);
            if !self.fork_choice.spec_contains(root) {
                Some(ChainError::HeadMissingFromForkChoice { beacon_block_root: root })
            } else if !self.fork_choice.spec_node_of(
                root,
            ).execution_status.spec_is_valid_or_irrelevant() {
                Some(ChainError::HeadBlockNotFullyVerified { beacon_block_root: root })
            } else if spec_epoch_of(request_slot) >= MAX_SLOT {
                Some(ChainError::ArithmeticOverflow)
            } else {
                None
            }
        }
    }

    /// The justified checkpoint an attestation at `request_slot` cites:
    /// the head state's within its own epoch, otherwise the attester
    /// cache's row for the epoch's decision root, falling back to the
    /// head state when the cache misses (and priming it).
    pub open spec fn spec_attestation_source(self, request_slot: u64) -> Checkpoint {
        let head = self.canonical_head.beacon_state;
        let e = spec_epoch_of(request_slot);
        if spec_epoch_of(head.slot) == e {
            head.current_justified
        } else {
            let droot = if e <= spec_epoch_of(head.slot) + 1 {
                head.spec_attester_decision_root(e)
            } else {
                self.canonical_head.beacon_block_root
            };
            match crate::caches::spec_attester_lookup(self.attester_cache.entries@, e, droot) {
                Some((cp, _)) => cp,
                None => head.current_justified,
            }
        }
    }

    pub fn produce_unaggregated_attestation(
        &mut self,
        request_slot: u64,
        request_index: u64,
    ) -> (r: Result<Attestation, ChainError>)
        requires
            old(self).wf(),
        ensures
            final(self).wf(),
            final(self).clock_slot == old(self).clock_slot,
            final(self).fork_choice == old(self).fork_choice,
            final(self).canonical_head == old(self).canonical_head,
            final(self).store == old(self).store,
            final(self).events@ == old(self).events@,
            // Production succeeds exactly when the early cache serves the
            // request or every head-based check passes.
            r is Ok <==> (old(self).spec_early_serves(request_slot) || old(
                self,
            ).spec_attestation_check(request_slot) is None),
            match r {
                Ok(a) => {
                    &&& a.data.slot == request_slot
                    &&& a.data.index == request_index
                    &&& a.attesting_indices@.len() == 0
                    &&& a.data.target.epoch == spec_epoch_of(request_slot)
                    // Served by the early attester cache for its pending
                    // head, or derived from the canonical head.
                    &&& (old(self).spec_early_serves(request_slot) ==> {
                        &&& a.data.beacon_block_root == old(
                            self,
                        ).early_attester_cache.entry->0.block.root
                        &&& a.data.source == old(self).early_attester_cache.entry->0.source
                        &&& a.data.target == old(self).early_attester_cache.entry->0.target
                    })
                    &&& (!old(self).spec_early_serves(request_slot) ==> {
                        &&& a.data.beacon_block_root == old(self).spec_attestation_root(
                            request_slot,
                        )
                        &&& a.data.source == old(self).spec_attestation_source(request_slot)
                    })
                },
                Err(e) => !old(self).spec_early_serves(request_slot) && e == old(
                    self,
                ).spec_attestation_check(request_slot)->0,
            },
    {
        // The early attester cache prevents slow database writes from
        // causing missed head votes.
        match self.early_attester_cache.try_attest(request_slot, request_index) {
            Some(attestation) => {
                if attestation.data.target.epoch == request_slot / SLOTS_PER_EPOCH {
                    return Ok(
                        Attestation {
                            data: AttestationData {
                                target: Checkpoint {
                                    epoch: request_slot / SLOTS_PER_EPOCH,
                                    ..attestation.data.target
                                },
                                ..attestation.data
                            },
                            attesting_indices: attestation.attesting_indices,
                        },
                    );
                }
            },
            None => {},
        }

        let request_epoch = request_slot / SLOTS_PER_EPOCH;
        let head_state = &self.canonical_head.beacon_state;

        // Attesting below finalization is pointless and expensive.
        proof {
            assert(head_state.finalized.epoch < MAX_SLOT);
        }
        let finalized_slot = head_state.finalized.epoch * SLOTS_PER_EPOCH;
        if request_slot < finalized_slot {
            return Err(
                ChainError::AttestingToFinalizedSlot { finalized_slot, request_slot },
            );
        }
        // The historical window of the head state bounds how far back an
        // attestation can be produced.
        let lowest_permissible_slot = if head_state.slot > SLOTS_PER_HISTORICAL_ROOT {
            head_state.slot - SLOTS_PER_HISTORICAL_ROOT
        } else {
            0
        };
        if request_slot < lowest_permissible_slot {
            return Err(
                ChainError::AttestingToAncientSlot { lowest_permissible_slot, request_slot },
            );
        }

        let beacon_block_root: u64;
        if request_slot >= head_state.slot {
            beacon_block_root = self.canonical_head.beacon_block_root;
        } else {
            beacon_block_root = match head_state.block_root_at(request_slot) {
                Some(rt) => rt,
                None => {
                    // Unreachable: the window check above guarantees the
                    // root is recorded.
                    proof {
                        assert(false);
                    }
                    return Err(
                        ChainError::AttestingToAncientSlot {
                            lowest_permissible_slot,
                            request_slot,
                        },
                    );
                },
            };
        }

        // Only attest to a fully verified block.
        match self.fork_choice.get_block_execution_status(beacon_block_root) {
            Some(status) => {
                if !status.is_valid_or_irrelevant() {
                    return Err(
                        ChainError::HeadBlockNotFullyVerified { beacon_block_root },
                    );
                }
            },
            None => {
                return Err(ChainError::HeadMissingFromForkChoice { beacon_block_root });
            },
        }

        if request_epoch >= MAX_SLOT {
            return Err(ChainError::ArithmeticOverflow);
        }
        let target_slot = request_epoch * SLOTS_PER_EPOCH;
        let target_root = if head_state.slot <= target_slot {
            beacon_block_root
        } else {
            match head_state.block_root_at(target_slot) {
                Some(rt) => rt,
                None => beacon_block_root,
            }
        };

        // Justified checkpoint: from the head state in its own epoch,
        // else through the attester cache, priming it on a miss.
        let justified_checkpoint: Checkpoint;
        if head_state.current_epoch() == request_epoch {
            justified_checkpoint = head_state.current_justified;
        } else {
            let decision_root = if request_epoch <= head_state.current_epoch() + 1 {
                head_state.attester_decision_root(request_epoch)
            } else {
                self.canonical_head.beacon_block_root
            };
            match self.attester_cache.get(request_epoch, decision_root) {
                Some((cp, _seed)) => {
                    justified_checkpoint = cp;
                },
                None => {
                    let cp = head_state.current_justified;
                    self.attester_cache.insert(request_epoch, decision_root, cp, decision_root);
                    justified_checkpoint = cp;
                },
            }
        }

        Ok(
            Attestation {
                data: AttestationData {
                    slot: request_slot,
                    index: request_index,
                    beacon_block_root,
                    source: justified_checkpoint,
                    target: Checkpoint { epoch: request_epoch, root: target_root },
                },
                attesting_indices: Vec::new(),
            },
        )
    }

    /// Gossip verification of a one-signer attestation: the vote must
    /// carry exactly one signer, reference a block known to fork choice,
    /// and be the validator's first for its target epoch.
    pub fn verify_unaggregated_attestation_for_gossip(
        &mut self,
        unaggregated_attestation: Attestation,
        _subnet_id: Option<u64>,
    ) -> (r: Result<VerifiedUnaggregatedAttestation, ChainError>)
        requires
            old(self).wf(),
        ensures
            final(self).wf(),
            final(self).clock_slot == old(self).clock_slot,
            final(self).fork_choice == old(self).fork_choice,
            final(self).store == old(self).store,
            // Verification succeeds exactly for a one-signer vote to a
            // known block from a validator not yet seen this epoch.
            r is Ok <==> (unaggregated_attestation.attesting_indices@.len() == 1 && old(
                self,
            ).fork_choice.spec_contains(unaggregated_attestation.data.beacon_block_root) && !old(
                self,
            ).observed_gossip_attesters.seen@.contains(
                (
                    unaggregated_attestation.data.target.epoch,
                    unaggregated_attestation.attesting_indices@[0],
                ),
            )),
            match r {
                Ok(v) => {
                    &&& v.attestation@ == unaggregated_attestation@
                    &&& final(self).observed_gossip_attesters.seen@.contains(
                        (
                            unaggregated_attestation.data.target.epoch,
                            unaggregated_attestation.attesting_indices@[0],
                        ),
                    )
                    // An accepted attestation is announced to the sink.
                    &&& final(self).events@ == old(self).events@.push(
                        EventKind::Attestation {
                            slot: unaggregated_attestation.data.slot,
                            beacon_block_root: unaggregated_attestation.data.beacon_block_root,
                            validator_index: unaggregated_attestation.attesting_indices@[0],
                        },
                    )
                },
                Err(e) => e == (if unaggregated_attestation.attesting_indices@.len() != 1 {
                    ChainError::NotExactlyOneAggregationBitSet {
                        signers: unaggregated_attestation.attesting_indices@.len() as u64,
                    }
                } else if !old(self).fork_choice.spec_contains(
                    unaggregated_attestation.data.beacon_block_root,
                ) {
                    ChainError::HeadMissingFromForkChoice {
                        beacon_block_root: unaggregated_attestation.data.beacon_block_root,
                    }
                } else {
                    ChainError::PriorAttestationKnown {
                        validator_index: unaggregated_attestation.attesting_indices@[0],
                        epoch: unaggregated_attestation.data.target.epoch,
                    }
                }),
            },
            r is Err ==> final(self).events@ == old(self).events@,
    {
        if unaggregated_attestation.attesting_indices.len() != 1 {
            return Err(
                ChainError::NotExactlyOneAggregationBitSet {
                    signers: unaggregated_attestation.attesting_indices.len() as u64,
                },
            );
        }
        let beacon_block_root = unaggregated_attestation.data.beacon_block_root;
        if !self.fork_choice.contains_block(beacon_block_root) {
            return Err(ChainError::HeadMissingFromForkChoice { beacon_block_root });
        }
        let validator = unaggregated_attestation.attesting_indices[0];
        let epoch = unaggregated_attestation.data.target.epoch;
        let newly = self.observed_gossip_attesters.observe(epoch, validator);
        if !newly {
            return Err(ChainError::PriorAttestationKnown { validator_index: validator, epoch });
        }
        self.events.push(
            EventKind::Attestation {
                slot: unaggregated_attestation.data.slot,
                beacon_block_root,
                validator_index: validator,
            },
        );
        Ok(VerifiedUnaggregatedAttestation { attestation: unaggregated_attestation })
    }

    /// Gossip verification of an aggregate: the exact aggregate must not
    /// have been seen, the aggregator must be new for the epoch, and the
    /// vote must reference a known block.
    pub fn verify_aggregated_attestation_for_gossip(
        &mut self,
        signed_aggregate: Attestation,
        aggregator_index: u64,
    ) -> (r: Result<VerifiedAggregatedAttestation, ChainError>)
        requires
            old(self).wf(),
        ensures
            final(self).wf(),
            final(self).clock_slot == old(self).clock_slot,
            final(self).fork_choice == old(self).fork_choice,
            final(self).store == old(self).store,
            match r {
                Ok(v) => {
                    &&& v.attestation@ == signed_aggregate@
                    &&& v.aggregator_index == aggregator_index
                    &&& old(self).fork_choice.spec_contains(
                        signed_aggregate.data.beacon_block_root,
                    )
                    &&& !old(self).observed_attestations.seen@.contains(signed_aggregate.data)
                    &&& final(self).observed_attestations.seen@.contains(signed_aggregate.data)
                    // An accepted aggregate is announced to the sink.
                    &&& final(self).events@ == old(self).events@.push(
                        EventKind::Attestation {
                            slot: signed_aggregate.data.slot,
                            beacon_block_root: signed_aggregate.data.beacon_block_root,
                            validator_index: aggregator_index,
                        },
                    )
                },
                Err(e) => {
                    ||| e matches ChainError::HeadMissingFromForkChoice { .. }
                    ||| e matches ChainError::PriorAttestationKnown { .. }
                },
            },
            r is Err ==> final(self).events@ == old(self).events@,
    {
        let beacon_block_root = signed_aggregate.data.beacon_block_root;
        if !self.fork_choice.contains_block(beacon_block_root) {
            return Err(ChainError::HeadMissingFromForkChoice { beacon_block_root });
        }
        let epoch = signed_aggregate.data.target.epoch;
        match self.observed_attestations.observe_item(&signed_aggregate.data) {
            ObservationOutcome::AlreadyKnown => {
                return Err(
                    ChainError::PriorAttestationKnown {
                        validator_index: aggregator_index,
                        epoch,
                    },
                );
            },
            ObservationOutcome::New => {},
        }
        let newly = self.observed_aggregators.observe(epoch, aggregator_index);
        if !newly {
            return Err(
                ChainError::PriorAttestationKnown { validator_index: aggregator_index, epoch },
            );
        }
        self.events.push(
            EventKind::Attestation {
                slot: signed_aggregate.data.slot,
                beacon_block_root,
                validator_index: aggregator_index,
            },
        );
        Ok(VerifiedAggregatedAttestation { attestation: signed_aggregate, aggregator_index })
    }

    /// Gossip verification of a sync-committee message.
    pub fn verify_sync_committee_message_for_gossip(
        &mut self,
        sync_message: SyncCommitteeMessage,
        subnet_id: u64,
    ) -> (r: Result<VerifiedSyncCommitteeMessage, ChainError>)
        requires
            old(self).wf(),
        ensures
            final(self).wf(),
            final(self).clock_slot == old(self).clock_slot,
            match r {
                Ok(v) => {
                    &&& v.message == sync_message
                    &&& v.subnet_id == subnet_id
                    &&& final(self).observed_sync_contributors.seen@.contains(
                        (sync_message.slot, sync_message.validator_index),
                    )
                },
                Err(e) => e matches ChainError::PriorAttestationKnown { .. },
            },
    {
        let newly = self.observed_sync_contributors.observe(
            sync_message.slot,
            sync_message.validator_index,
        );
        if !newly {
            return Err(
                ChainError::PriorAttestationKnown {
                    validator_index: sync_message.validator_index,
                    epoch: sync_message.slot / SLOTS_PER_EPOCH,
                },
            );
        }
        Ok(VerifiedSyncCommitteeMessage { message: sync_message, subnet_id })
    }

    /// Gossip verification of a signed sync contribution.
    pub fn verify_sync_contribution_for_gossip(
        &mut self,
        data: SyncContributionData,
        aggregator_index: u64,
        signers: Vec<u64>,
    ) -> (r: Result<VerifiedSyncContribution, ChainError>)
        requires
            old(self).wf(),
        ensures
            final(self).wf(),
            final(self).clock_slot == old(self).clock_slot,
            match r {
                Ok(v) => {
                    &&& v.data == data
                    &&& v.aggregator_index == aggregator_index
                    &&& final(self).observed_sync_aggregators.seen@.contains(
                        (data.slot, aggregator_index),
                    )
                    // An accepted contribution is announced to the sink.
                    &&& final(self).events@ == old(self).events@.push(
                        EventKind::ContributionAndProof {
                            slot: data.slot,
                            aggregator_index,
                        },
                    )
                },
                Err(e) => e matches ChainError::PriorAttestationKnown { .. },
            },
            r is Err ==> final(self).events@ == old(self).events@,
    {
        let newly = self.observed_sync_aggregators.observe(data.slot, aggregator_index);
        if !newly {
            return Err(
                ChainError::PriorAttestationKnown {
                    validator_index: aggregator_index,
                    epoch: data.slot / SLOTS_PER_EPOCH,
                },
            );
        }
        self.events.push(
            EventKind::ContributionAndProof { slot: data.slot, aggregator_index },
        );
        Ok(VerifiedSyncContribution { data, aggregator_index, signers })
    }

    /// Apply a verified attestation's votes to fork choice.
    pub fn apply_attestation_to_fork_choice(
        &mut self,
        verified: &VerifiedUnaggregatedAttestation,
    ) -> (r: Result<(), ChainError>)
        requires
            old(self).wf(),
        ensures
            final(self).wf(),
            final(self).clock_slot == old(self).clock_slot,
            final(self).fork_choice.nodes@ == old(self).fork_choice.nodes@,
            final(self).store == old(self).store,
            // A vote for an untracked block is an error the caller must
            // see; votes for tracked blocks are applied.
            r is Ok <==> old(self).fork_choice.spec_contains(
                verified.attestation.data.beacon_block_root,
            ),
            r is Err ==> r == Err::<(), ChainError>(
                ChainError::HeadMissingFromForkChoice {
                    beacon_block_root: verified.attestation.data.beacon_block_root,
                },
            ) && final(self).fork_choice.votes@ == old(self).fork_choice.votes@,
            // On success the vote table is exactly the old one with every
            // signer's vote applied in order.
            r is Ok ==> final(self).fork_choice.votes@ == spec_votes_after_signers(
                old(self).fork_choice,
                old(self).fork_choice.votes@,
                verified.attestation.data,
                verified.attestation@.attesting_indices,
                verified.attestation@.attesting_indices.len() as int,
            ),
    {
        if !self.fork_choice.contains_block(verified.attestation.data.beacon_block_root) {
            return Err(
                ChainError::HeadMissingFromForkChoice {
                    beacon_block_root: verified.attestation.data.beacon_block_root,
                },
            );
        }
        let data = verified.attestation.data;
        let mut k: usize = 0;
        while k < verified.attestation.attesting_indices.len()
            invariant
                old(self).wf(),
                self.wf(),
                self.clock_slot == old(self).clock_slot,
                self.fork_choice.nodes@ == old(self).fork_choice.nodes@,
                self.fork_choice.index_of@ == old(self).fork_choice.index_of@,
                self.store == old(self).store,
                k <= verified.attestation.attesting_indices@.len(),
                data == verified.attestation.data,
                old(self).fork_choice.spec_contains(data.beacon_block_root),
                self.fork_choice.votes@ == spec_votes_after_signers(
                    old(self).fork_choice,
                    old(self).fork_choice.votes@,
                    data,
                    verified.attestation@.attesting_indices,
                    k as int,
                ),
            decreases verified.attestation.attesting_indices@.len() - k,
        {
            let validator = verified.attestation.attesting_indices[k];
            proof {
                assert(verified.attestation@.attesting_indices[k as int] == validator);
            }
            let ghost votes_pre = self.fork_choice.votes@;
            if validator < 0x1000_0000 {
                let _ignored = self.fork_choice.on_attestation(
                    validator,
                    data.beacon_block_root,
                    data.target.epoch,
                );
                proof {
                    match _ignored {
                        Ok(()) => {
                            lemma_vote_upsert_shape(
                                votes_pre,
                                self.fork_choice.votes@,
                                validator,
                                data.beacon_block_root,
                                data.target.epoch,
                            );
                        },
                        Err(_) => {
                            assert(false);
                        },
                    }
                }
            }
                proof {
                    assert forall|rt: u64| #[trigger]
                        self.fork_choice.spec_contains(rt) implies self.store.blocks@.contains_key(
                        rt,
                    ) by {
                        assert(old(self).fork_choice.spec_contains(rt));
                    }
                    assert forall|rt: u64| #[trigger]
                        self.fork_choice.spec_contains(
                            rt,
                        ) implies self.store.states@.contains_key(
                        self.fork_choice.spec_node_of(rt).state_root,
                    ) by {
                        assert(old(self).fork_choice.spec_contains(rt));
                        assert(self.fork_choice.spec_node_of(rt) == old(
                            self,
                        ).fork_choice.spec_node_of(rt));
                    }
                }
            k = k + 1;
        }
        Ok(())
    }

    /// Hand a verified one-signer attestation to the naive aggregation
    /// pool. A stale slot is dropped silently — an early return, not an
    /// error — while any other pool insertion failure is propagated.
    pub fn add_to_naive_aggregation_pool(
        &mut self,
        unaggregated_attestation: &VerifiedUnaggregatedAttestation,
    ) -> (r: Result<(), ChainError>)
        requires
            old(self).wf(),
        ensures
            final(self).wf(),
            final(self).clock_slot == old(self).clock_slot,
            r is Err <==> unaggregated_attestation.attestation.attesting_indices@.len() != 1,
            match r {
                Ok(()) => {
                    // In-window votes land in the pool; stale ones are
                    // silently dropped and nothing changes.
                    &&& (unaggregated_attestation.attestation.data.slot >= old(
                        self,
                    ).naive_aggregation_pool.lowest_permissible_slot
                        ==> crate::pool::spec_att_signers(
                        final(self).naive_aggregation_pool.entries@,
                        unaggregated_attestation.attestation.data,
                    ) is Some)
                    &&& (unaggregated_attestation.attestation.data.slot < old(
                        self,
                    ).naive_aggregation_pool.lowest_permissible_slot
                        ==> final(self).naive_aggregation_pool.entries@ == old(
                        self,
                    ).naive_aggregation_pool.entries@)
                },
                Err(e) => e == (ChainError::NotExactlyOneAggregationBitSet {
                    signers: unaggregated_attestation.attestation.attesting_indices@.len() as u64,
                }) && final(self).naive_aggregation_pool.entries@ == old(
                    self,
                ).naive_aggregation_pool.entries@,
            },
    {
        match self.naive_aggregation_pool.insert(&unaggregated_attestation.attestation) {
            Ok(_outcome) => Ok(()),
            Err(PoolError::SlotTooLow { .. }) => Ok(()),
            Err(PoolError::NotExactlyOneSigner { signers }) => Err(
                ChainError::NotExactlyOneAggregationBitSet { signers },
            ),
        }
    }

    /// Hand a verified sync message to the sync aggregation pool, once
    /// per subnet position; stale slots are dropped silently.
    pub fn add_to_naive_sync_aggregation_pool(
        &mut self,
        verified_sync_committee_message: VerifiedSyncCommitteeMessage,
    ) -> (r: Result<VerifiedSyncCommitteeMessage, ChainError>)
        requires
            old(self).wf(),
        ensures
            final(self).wf(),
            final(self).clock_slot == old(self).clock_slot,
            r == Ok::<VerifiedSyncCommitteeMessage, ChainError>(verified_sync_committee_message),
    {
        let message = verified_sync_committee_message.message;
        let data = SyncContributionData {
            slot: message.slot,
            beacon_block_root: message.beacon_block_root,
            subcommittee_index: verified_sync_committee_message.subnet_id,
        };
        let _outcome = self.naive_sync_aggregation_pool.insert(&data, message.validator_index);
        Ok(verified_sync_committee_message)
    }

    /// Queue a verified attestation for block inclusion.
    pub fn add_to_block_inclusion_pool(
        &mut self,
        verified_attestation: &VerifiedUnaggregatedAttestation,
    ) -> (r: Result<(), ChainError>)
        requires
            old(self).wf(),
        ensures
            final(self).wf(),
            final(self).clock_slot == old(self).clock_slot,
            r is Ok,
            atts_abs(final(self).op_pool.attestations@) == atts_abs(
                old(self).op_pool.attestations@,
            ).push(verified_attestation.attestation@),
    {
        self.op_pool.insert_attestation(verified_attestation.attestation.duplicate());
        Ok(())
    }

    /// Queue a verified sync contribution for block inclusion.
    pub fn add_contribution_to_block_inclusion_pool(
        &mut self,
        contribution: VerifiedSyncContribution,
    ) -> (r: Result<(), ChainError>)
        requires
            old(self).wf(),
        ensures
            final(self).wf(),
            final(self).clock_slot == old(self).clock_slot,
            r is Ok,
    {
        self.op_pool.insert_sync_contribution(contribution.data, contribution.signers);
        Ok(())
    }

    /// Reject an aggregate that references a block whose payload is not
    /// fully verified or that fell below finalization.
    fn filter_optimistic_attestation(&self, attestation: Attestation) -> (r: Result<
        Attestation,
        ChainError,
    >)
        requires
            self.wf(),
        ensures
            r is Ok <==> (self.fork_choice.spec_contains(attestation.data.beacon_block_root)
                && self.fork_choice.spec_node_of(
                attestation.data.beacon_block_root,
            ).execution_status.spec_is_valid_or_irrelevant()),
            match r {
                Ok(a) => a@ == attestation@,
                Err(e) => e == (if !self.fork_choice.spec_contains(
                    attestation.data.beacon_block_root,
                ) {
                    ChainError::CannotAttestToFinalizedBlock {
                        beacon_block_root: attestation.data.beacon_block_root,
                    }
                } else {
                    ChainError::HeadBlockNotFullyVerified {
                        beacon_block_root: attestation.data.beacon_block_root,
                    }
                }),
            },
    {
        let beacon_block_root = attestation.data.beacon_block_root;
        match self.fork_choice.get_block_execution_status(beacon_block_root) {
            None => Err(ChainError::CannotAttestToFinalizedBlock { beacon_block_root }),
            Some(status) => {
                if status.is_valid_or_irrelevant() {
                    Ok(attestation)
                } else {
                    Err(ChainError::HeadBlockNotFullyVerified { beacon_block_root })
                }
            },
        }
    }

    /// The pool's aggregate for this vote content, if its block is safe
    /// to attest to.
    pub fn get_aggregated_attestation(&self, data: &AttestationData) -> (r: Result<
        Option<Attestation>,
        ChainError,
    >)
        requires
            self.wf(),
        ensures
            // Nothing is returned exactly when the pool holds no entry;
            // a held entry is returned with its exact signers when its
            // block is safe to attest to, and refused otherwise.
            r == Ok::<Option<Attestation>, ChainError>(None::<Attestation>)
                <==> crate::pool::spec_att_signers(
                self.naive_aggregation_pool.entries@,
                *data,
            ) is None,
            match r {
                Ok(Some(a)) => {
                    &&& a.data == *data
                    &&& Some(a.attesting_indices@) == crate::pool::spec_att_signers(
                        self.naive_aggregation_pool.entries@,
                        *data,
                    )
                    &&& self.fork_choice.spec_contains(data.beacon_block_root)
                    &&& self.fork_choice.spec_node_of(
                        data.beacon_block_root,
                    ).execution_status.spec_is_valid_or_irrelevant()
                },
                Ok(None) => true,
                Err(_) => !(self.fork_choice.spec_contains(data.beacon_block_root)
                    && self.fork_choice.spec_node_of(
                    data.beacon_block_root,
                ).execution_status.spec_is_valid_or_irrelevant()),
            },
    {
        match self.naive_aggregation_pool.get(data) {
            Some(attestation) => match self.filter_optimistic_attestation(attestation) {
                Ok(a) => Ok(Some(a)),
                Err(e) => Err(e),
            },
            None => Ok(None),
        }
    }

    /// As `get_aggregated_attestation`, searching by slot and block root.
    pub fn get_aggregated_attestation_by_slot_and_root(
        &self,
        slot: u64,
        beacon_block_root: u64,
    ) -> (r: Result<Option<Attestation>, ChainError>)
        requires
            self.wf(),
        ensures
            match r {
                // A served aggregate matches the key and its target block
                // is safe to attest to; `None` is only returned when the
                // pool holds no aggregate under the key; an unsafe target
                // is the pinned error.
                Ok(Some(a)) => a.data.slot == slot && a.data.beacon_block_root
                    == beacon_block_root && self.fork_choice.spec_contains(beacon_block_root)
                    && self.fork_choice.spec_node_of(
                    beacon_block_root,
                ).execution_status.spec_is_valid_or_irrelevant(),
                Ok(None) => forall|k: int|
                    0 <= k < self.naive_aggregation_pool.entries@.len() ==> !((
                    #[trigger] self.naive_aggregation_pool.entries@[k]).0.slot == slot
                        && self.naive_aggregation_pool.entries@[k].0.beacon_block_root
                        == beacon_block_root),
                Err(e) => {
                    ||| e == (ChainError::CannotAttestToFinalizedBlock { beacon_block_root })
                    ||| e == (ChainError::HeadBlockNotFullyVerified { beacon_block_root })
                },
            },
    {
        let mut k: usize = 0;
        while k < self.naive_aggregation_pool.entries.len()
            invariant
                self.wf(),
                k <= self.naive_aggregation_pool.entries@.len(),
                forall|m: int|
                    0 <= m < k ==> !((#[trigger] self.naive_aggregation_pool.entries@[m]).0.slot
                        == slot && self.naive_aggregation_pool.entries@[m].0.beacon_block_root
                        == beacon_block_root),
            decreases self.naive_aggregation_pool.entries@.len() - k,
        {
            let entry_data = self.naive_aggregation_pool.entries[k].0;
            if entry_data.slot == slot && entry_data.beacon_block_root == beacon_block_root {
                match self.naive_aggregation_pool.get(&entry_data) {
                    Some(attestation) => {
                        match self.filter_optimistic_attestation(attestation) {
                            Ok(a) => {
                                return Ok(Some(a));
                            },
                            Err(e) => {
                                return Err(e);
                            },
                        }
                    },
                    None => {
                        // Unreachable: the key was just read from the
                        // pool's entries.
                        proof {
                            assert(self.naive_aggregation_pool.entries@[k as int].0
                                == entry_data);
                            assert(false);
                        }
                    },
                }
            }
            k = k + 1;
        }
        Ok(None)
    }

    /// The pool's aggregate sync contribution for this key, if any.
    pub fn get_aggregated_sync_committee_contribution(
        &self,
        sync_contribution_data: &SyncContributionData,
    ) -> (r: Option<crate::pool::SyncCommitteeContribution>)
        requires
            self.wf(),
        ensures
            // Exactly the pool's aggregate for the key: owed when the
            // pool holds one, with its recorded signers, and `None` only
            // when it does not.
            match r {
                Some(c) => {
                    &&& crate::pool::spec_sync_signers(
                        self.naive_sync_aggregation_pool.entries@,
                        *sync_contribution_data,
                    ) is Some
                    &&& c.data == *sync_contribution_data
                    &&& c.signers@ == crate::pool::spec_sync_signers(
                        self.naive_sync_aggregation_pool.entries@,
                        *sync_contribution_data,
                    )->0
                },
                None => crate::pool::spec_sync_signers(
                    self.naive_sync_aggregation_pool.entries@,
                    *sync_contribution_data,
                ) is None,
            },
    {
        self.naive_sync_aggregation_pool.get(sync_contribution_data)
    }

    /// Verify a voluntary exit for gossip: new or already known.
    pub fn verify_voluntary_exit_for_gossip(&mut self, validator_index: u64) -> (r: Result<
        ObservationOutcome,
        ChainError,
    >)
        requires
            old(self).wf(),
        ensures
            final(self).wf(),
            final(self).clock_slot == old(self).clock_slot,
            r == Ok::<ObservationOutcome, ChainError>(
                if old(self).observed_voluntary_exits.seen@.contains(validator_index) {
                    ObservationOutcome::AlreadyKnown
                } else {
                    ObservationOutcome::New
                },
            ),
            final(self).observed_voluntary_exits.seen@.contains(validator_index),
            (r == Ok::<ObservationOutcome, ChainError>(ObservationOutcome::New))
                ==> final(self).events@ == old(self).events@.push(
                EventKind::VoluntaryExit { validator_index },
            ),
    {
        let outcome = self.observed_voluntary_exits.verify_and_observe(validator_index);
        match outcome {
            ObservationOutcome::New => {
                self.events.push(EventKind::VoluntaryExit { validator_index });
            },
            ObservationOutcome::AlreadyKnown => {},
        }
        Ok(outcome)
    }

    /// Queue a verified voluntary exit for block inclusion.
    pub fn import_voluntary_exit(&mut self, validator_index: u64)
        requires
            old(self).wf(),
        ensures
            final(self).wf(),
            final(self).clock_slot == old(self).clock_slot,
            final(self).op_pool.voluntary_exits@ == old(self).op_pool.voluntary_exits@.push(
                validator_index,
            ),
    {
        self.op_pool.insert_voluntary_exit(validator_index);
    }

    /// Verify a proposer slashing for gossip: new or already known.
    pub fn verify_proposer_slashing_for_gossip(&mut self, validator_index: u64) -> (r: Result<
        ObservationOutcome,
        ChainError,
    >)
        requires
            old(self).wf(),
        ensures
            final(self).wf(),
            final(self).clock_slot == old(self).clock_slot,
            r == Ok::<ObservationOutcome, ChainError>(
                if old(self).observed_proposer_slashings.seen@.contains(validator_index) {
                    ObservationOutcome::AlreadyKnown
                } else {
                    ObservationOutcome::New
                },
            ),
    {
        Ok(self.observed_proposer_slashings.verify_and_observe(validator_index))
    }

    /// Queue a verified proposer slashing for block inclusion.
    pub fn import_proposer_slashing(&mut self, validator_index: u64)
        requires
            old(self).wf(),
        ensures
            final(self).wf(),
            final(self).clock_slot == old(self).clock_slot,
            final(self).op_pool.proposer_slashings@
                == old(self).op_pool.proposer_slashings@.push(validator_index),
    {
        self.op_pool.insert_proposer_slashing(validator_index);
    }

    /// Verify an attester slashing for gossip: new or already known.
    pub fn verify_attester_slashing_for_gossip(&mut self, validator_index: u64) -> (r: Result<
        ObservationOutcome,
        ChainError,
    >)
        requires
            old(self).wf(),
        ensures
            final(self).wf(),
            final(self).clock_slot == old(self).clock_slot,
            r == Ok::<ObservationOutcome, ChainError>(
                if old(self).observed_attester_slashings.seen@.contains(validator_index) {
                    ObservationOutcome::AlreadyKnown
                } else {
                    ObservationOutcome::New
                },
            ),
    {
        Ok(self.observed_attester_slashings.verify_and_observe(validator_index))
    }

    /// Queue a verified attester slashing for block inclusion.
    pub fn import_attester_slashing(&mut self, validator_index: u64) -> (r: Result<
        (),
        ChainError,
    >)
        requires
            old(self).wf(),
        ensures
            final(self).wf(),
            final(self).clock_slot == old(self).clock_slot,
            final(self).op_pool.attester_slashings@
                == old(self).op_pool.attester_slashings@.push(validator_index),
            r is Ok,
    {
        self.op_pool.insert_attester_slashing(validator_index);
        Ok(())
    }
}

/// One node of the chain graph dump.
#[derive(Clone, Copy, PartialEq, Eq, Structural, Debug)]
pub struct GraphNode {
    pub root: u64,
    pub slot: u64,
    pub parent_root: u64,
    pub is_canonical_head: bool,
}

impl BeaconChain {
    /// The state of the canonical chain at `slot`: the head state itself,
    /// the head state advanced through skipped slots for a later slot, or
    /// a historical state loaded by its recorded root for an earlier one.
    pub fn state_at_slot(&self, slot: u64, config: StateSkipConfig) -> (r: Result<
        StateSummary,
        ChainError,
    >)
        requires
            self.wf(),
        ensures
            match r {
                Ok(st) => {
                    let head = self.canonical_head.beacon_state;
                    &&& st.wf()
                    &&& st.slot == slot
                    // The state is pinned to the canonical chain: the
                    // head state itself, the head advanced through
                    // skipped slots, or the stored historical state at
                    // the recorded root.
                    &&& (slot == head.slot ==> st@ == head@)
                    &&& (slot > head.slot ==> st@ == head@.advanced(
                        self.spec,
                        (slot - head.slot) as nat,
                        config is WithStateRoots,
                    ))
                    &&& (slot < head.slot ==> head.spec_state_root_at(slot) is Some && st@
                        == self.store.states@[head.spec_state_root_at(slot)->0]@)
                },
                Err(e) => {
                    let head = self.canonical_head.beacon_state;
                    // The head state always serves its own slot; a future
                    // slot fails only beyond the skip budget; a past slot
                    // fails only when its state is not recorded or not
                    // stored at the recorded root.
                    &&& slot != head.slot
                    &&& (slot > head.slot ==> (slot >= MAX_SLOT || slot - head.slot
                        > SLOTS_PER_HISTORICAL_ROOT))
                    &&& (slot < head.slot ==> (head.spec_state_root_at(slot) is None
                        || !self.store.states@.contains_key(head.spec_state_root_at(slot)->0)
                        || self.store.states@[head.spec_state_root_at(slot)->0].slot != slot))
                    // Each failure reports its exact error.
                    &&& (slot > head.slot && slot >= MAX_SLOT ==> e
                        == ChainError::ArithmeticOverflow)
                    &&& (slot > head.slot && slot < MAX_SLOT ==> e == (
                    ChainError::StateSkipTooLarge {
                        start_slot: head.slot,
                        requested_slot: slot,
                    }))
                    &&& (slot < head.slot ==> e == (ChainError::NoStateForSlot { slot }))
                },
            },
            // Success is owed on the head slot, within the forward skip
            // budget, and for every recorded-and-stored historical slot;
            // beyond the budget failure is owed.
            r is Ok <==> {
                let head = self.canonical_head.beacon_state;
                ||| slot == head.slot
                ||| (slot > head.slot && slot < MAX_SLOT && slot - head.slot
                    <= SLOTS_PER_HISTORICAL_ROOT)
                ||| (slot < head.slot && head.spec_state_root_at(slot) is Some
                    && self.store.states@.contains_key(head.spec_state_root_at(slot)->0)
                    && self.store.states@[head.spec_state_root_at(slot)->0].slot == slot)
            },
    {
        let head_state = &self.canonical_head.beacon_state;
        if slot == head_state.slot {
            return Ok(head_state.duplicate());
        }
        if slot > head_state.slot {
            // Bound the damage an unsynced request can do.
            if slot >= MAX_SLOT {
                return Err(ChainError::ArithmeticOverflow);
            }
            if slot - head_state.slot > SLOTS_PER_HISTORICAL_ROOT {
                return Err(
                    ChainError::StateSkipTooLarge {
                        start_slot: head_state.slot,
                        requested_slot: slot,
                    },
                );
            }
            let compute_state_roots = match config {
                StateSkipConfig::WithStateRoots => true,
                StateSkipConfig::WithoutStateRoots => false,
            };
            let mut state = head_state.duplicate();
            let ghost head_abs = self.canonical_head.beacon_state@;
            proof {
                crate::state::lemma_wf_from_view(self.canonical_head.beacon_state, state);
            }
            while state.slot < slot
                invariant
                    state.wf(),
                    state.slot <= slot,
                    slot < MAX_SLOT,
                    head_abs == self.canonical_head.beacon_state@,
                    head_abs.slot <= state.slot,
                    compute_state_roots == (config is WithStateRoots),
                    state@ == head_abs.advanced(
                        self.spec,
                        (state.slot - head_abs.slot) as nat,
                        compute_state_roots,
                    ),
                decreases slot - state.slot,
            {
                state.advance_slot(&self.spec, compute_state_roots);
            }
            return Ok(state);
        }
        // A historical slot: find its recorded state root and load it.
        let state_root = match head_state.state_root_at(slot) {
            Some(rt) => rt,
            None => {
                return Err(ChainError::NoStateForSlot { slot });
            },
        };
        match self.store.get_state(state_root) {
            Some(st) => {
                proof {
                    crate::state::lemma_wf_from_view(self.store.states@[state_root], st);
                }
                if st.slot == slot {
                    Ok(st)
                } else {
                    Err(ChainError::NoStateForSlot { slot })
                }
            },
            None => Err(ChainError::NoStateForSlot { slot }),
        }
    }

    /// The state at the wall-clock slot.
    pub fn wall_clock_state(&self) -> (r: Result<StateSummary, ChainError>)
        requires
            self.wf(),
        ensures
            match r {
                Ok(st) => st.wf(),
                Err(_) => true,
            },
    {
        let slot = match self.slot() {
            Ok(s) => s,
            Err(e) => {
                return Err(e);
            },
        };
        self.state_at_slot(slot, StateSkipConfig::WithStateRoots)
    }

    /// The canonical block root at `slot` under the previous-non-skipped
    /// rule, as a mathematical value.
    pub open spec fn spec_root_skips_prev(self, request_slot: u64) -> Option<u64> {
        let head = self.canonical_head.beacon_state;
        if self.clock_slot is None || request_slot > self.clock_slot->0 {
            None
        } else if request_slot == 0 {
            Some(self.genesis_block_root)
        } else if request_slot >= head.slot {
            Some(self.canonical_head.beacon_block_root)
        } else {
            head.spec_block_root_at(request_slot)
        }
    }

    /// The canonical block root at `slot` under the skipped-slots-return-
    /// nothing rule, as a mathematical value.
    pub open spec fn spec_root_skips_none(self, request_slot: u64) -> Option<u64> {
        let head = self.canonical_head.beacon_state;
        if self.clock_slot is None || request_slot > self.clock_slot->0 {
            None
        } else if request_slot == 0 {
            Some(self.genesis_block_root)
        } else {
            let cur = if request_slot >= head.slot {
                Some(self.canonical_head.beacon_block_root)
            } else {
                head.spec_block_root_at(request_slot)
            };
            match (cur, head.spec_block_root_at((request_slot - 1) as u64)) {
                (Some(c), Some(p)) => if p == c {
                    None
                } else {
                    Some(c)
                },
                _ => None,
            }
        }
    }

    /// The canonical state root at `slot`, as a mathematical value.
    pub open spec fn spec_state_root_query(self, request_slot: u64) -> Option<u64> {
        let head = self.canonical_head.beacon_state;
        if self.clock_slot is None || request_slot > self.clock_slot->0 {
            None
        } else if request_slot == 0 {
            Some(self.genesis_state_root)
        } else if request_slot >= head.slot {
            Some(head.current_state_root)
        } else {
            head.spec_state_root_at(request_slot)
        }
    }

    /// The canonical block root at `slot`, when `slot` is not skipped.
    fn block_root_at_slot_skips_none(&self, request_slot: u64) -> (r: Result<
        Option<u64>,
        ChainError,
    >)
        requires
            self.wf(),
        ensures
            r == Ok::<Option<u64>, ChainError>(self.spec_root_skips_none(request_slot)),
    {
        let now = match self.slot() {
            Ok(s) => s,
            Err(_) => {
                return Ok(None);
            },
        };
        if request_slot > now {
            return Ok(None);
        }
        if request_slot == 0 {
            return Ok(Some(self.genesis_block_root));
        }
        let head_state = &self.canonical_head.beacon_state;
        let request_root = if request_slot >= head_state.slot {
            self.canonical_head.beacon_block_root
        } else {
            match head_state.block_root_at(request_slot) {
                Some(rt) => rt,
                None => {
                    return Ok(None);
                },
            }
        };
        // A slot is skipped exactly when it records the same root as the
        // one before it.
        let prev_root = match head_state.block_root_at(request_slot - 1) {
            Some(rt) => rt,
            None => {
                return Ok(None);
            },
        };
        if prev_root == request_root {
            Ok(None)
        } else {
            Ok(Some(request_root))
        }
    }

    /// The canonical block root at `slot`, taking the previous
    /// non-skipped block for a skipped slot.
    fn block_root_at_slot_skips_prev(&self, request_slot: u64) -> (r: Result<
        Option<u64>,
        ChainError,
    >)
        requires
            self.wf(),
        ensures
            r == Ok::<Option<u64>, ChainError>(self.spec_root_skips_prev(request_slot)),
    {
        let now = match self.slot() {
            Ok(s) => s,
            Err(_) => {
                return Ok(None);
            },
        };
        if request_slot > now {
            return Ok(None);
        }
        if request_slot == 0 {
            return Ok(Some(self.genesis_block_root));
        }
        let head_state = &self.canonical_head.beacon_state;
        if request_slot >= head_state.slot {
            return Ok(Some(self.canonical_head.beacon_block_root));
        }
        match head_state.block_root_at(request_slot) {
            Some(rt) => Ok(Some(rt)),
            None => Ok(None),
        }
    }

    /// The canonical block root at `slot`, with configurable behaviour
    /// for skipped slots.
    pub fn block_root_at_slot(&self, request_slot: u64, skips: WhenSlotSkipped) -> (r: Result<
        Option<u64>,
        ChainError,
    >)
        requires
            self.wf(),
        ensures
            r == Ok::<Option<u64>, ChainError>(
                match skips {
                    WhenSlotSkipped::NoBlock => self.spec_root_skips_none(request_slot),
                    WhenSlotSkipped::Prev => self.spec_root_skips_prev(request_slot),
                },
            ),
    {
        match skips {
            WhenSlotSkipped::NoBlock => self.block_root_at_slot_skips_none(request_slot),
            WhenSlotSkipped::Prev => self.block_root_at_slot_skips_prev(request_slot),
        }
    }

    /// The canonical state root at `slot`, if recorded.
    pub fn state_root_at_slot(&self, request_slot: u64) -> (r: Result<Option<u64>, ChainError>)
        requires
            self.wf(),
        ensures
            r == Ok::<Option<u64>, ChainError>(self.spec_state_root_query(request_slot)),
    {
        let now = match self.slot() {
            Ok(s) => s,
            Err(_) => {
                return Ok(None);
            },
        };
        if request_slot > now {
            return Ok(None);
        }
        if request_slot == 0 {
            return Ok(Some(self.genesis_state_root));
        }
        let head_state = &self.canonical_head.beacon_state;
        if request_slot >= head_state.slot {
            return Ok(Some(head_state.current_state_root));
        }
        match head_state.state_root_at(request_slot) {
            Some(rt) => Ok(Some(rt)),
            None => Ok(None),
        }
    }

    /// The canonical block at `slot`, if any.
    pub fn block_at_slot(&self, request_slot: u64, skips: WhenSlotSkipped) -> (r: Result<
        Option<BlockSummary>,
        ChainError,
    >)
        requires
            self.wf(),
        ensures
            // The stored block at the resolved root: owed whenever the
            // slot resolves to a root that is in the store, and nothing
            // otherwise.
            match r {
                Ok(b_opt) => {
                    let root_opt = match skips {
                        WhenSlotSkipped::NoBlock => self.spec_root_skips_none(request_slot),
                        WhenSlotSkipped::Prev => self.spec_root_skips_prev(request_slot),
                    };
                    &&& (root_opt is None ==> b_opt is None)
                    &&& (root_opt is Some ==> (match b_opt {
                        Some(b) => {
                            &&& self.store.blocks@.contains_key(root_opt->0)
                            &&& b@ == self.store.blocks@[root_opt->0]@
                            &&& b.root == root_opt->0
                        },
                        None => !self.store.blocks@.contains_key(root_opt->0),
                    }))
                },
                Err(_) => false,
            },
    {
        match self.block_root_at_slot(request_slot, skips) {
            Ok(Some(root)) => Ok(self.store.get_block(root)),
            Ok(None) => Ok(None),
            Err(e) => Err(e),
        }
    }

    /// The block root of the chain described by `(beacon_block_root,
    /// state)` at `target_slot`, if recorded.
    pub fn root_at_slot_from_state(
        &self,
        target_slot: u64,
        beacon_block_root: u64,
        state: &StateSummary,
    ) -> (r: Result<Option<u64>, ChainError>)
        requires
            self.wf(),
            state.wf(),
        ensures
            r == Ok::<Option<u64>, ChainError>(
                spec_chain_root_at(*state, beacon_block_root, target_slot),
            ),
    {
        if target_slot >= state.slot {
            Ok(Some(beacon_block_root))
        } else {
            Ok(state.block_root_at(target_slot))
        }
    }

    /// All canonical `(block root, slot)` pairs from `start_slot` to the
    /// head, one per slot; skipped slots carry the closest prior root.
    pub fn forwards_iter_block_roots(&self, start_slot: u64) -> (r: Result<
        Vec<(u64, u64)>,
        ChainError,
    >)
        requires
            self.wf(),
        ensures
            match r {
                Ok(roots) => {
                    &&& roots@.len() == self.canonical_head.beacon_state.slot + 1 - start_slot
                    &&& forall|k: int|
                        0 <= k < roots@.len() ==> #[trigger] roots@[k] == (
                        (match spec_chain_root_at(
                            self.canonical_head.beacon_state,
                            self.canonical_head.beacon_block_root,
                            (start_slot + k) as u64,
                        ) {
                            Some(rt) => rt,
                            None => 0u64,
                        }),
                        (start_slot + k) as u64,
                        )
                },
                Err(e) => {
                    ||| e matches ChainError::HistoricalBlockOutOfRange { .. }
                    ||| e matches ChainError::ArithmeticOverflow
                },
            },
    {
        let oldest_block_slot = self.store.oldest_block_slot;
        if start_slot < oldest_block_slot {
            return Err(
                ChainError::HistoricalBlockOutOfRange { slot: start_slot, oldest_block_slot },
            );
        }
        let head_slot = self.canonical_head.beacon_state.slot;
        if start_slot > head_slot {
            return Err(ChainError::ArithmeticOverflow);
        }
        let mut roots: Vec<(u64, u64)> = Vec::new();
        let mut s = start_slot;
        while s <= head_slot
            invariant
                self.wf(),
                head_slot == self.canonical_head.beacon_state.slot,
                start_slot <= s,
                s <= head_slot + 1,
                roots@.len() == s - start_slot,
                forall|k: int|
                    0 <= k < roots@.len() ==> #[trigger] roots@[k] == (
                    (match spec_chain_root_at(
                        self.canonical_head.beacon_state,
                        self.canonical_head.beacon_block_root,
                        (start_slot + k) as u64,
                    ) {
                        Some(rt) => rt,
                        None => 0u64,
                    }),
                    (start_slot + k) as u64,
                    ),
            decreases head_slot + 1 - s,
        {
            let root = if s >= head_slot {
                self.canonical_head.beacon_block_root
            } else {
                match self.canonical_head.beacon_state.block_root_at(s) {
                    Some(rt) => rt,
                    None => 0,
                }
            };
            roots.push((root, s));
            s = s + 1;
        }
        Ok(roots)
    }

    /// As `forwards_iter_block_roots`, clipped to `end_slot` inclusive.
    pub fn forwards_iter_block_roots_until(&self, start_slot: u64, end_slot: u64) -> (r: Result<
        Vec<(u64, u64)>,
        ChainError,
    >)
        requires
            self.wf(),
        ensures
            match r {
                Ok(roots) => {
                    let head_slot = self.canonical_head.beacon_state.slot;
                    let last = if end_slot <= head_slot {
                        end_slot as int
                    } else {
                        head_slot as int
                    };
                    // One entry per slot from `start_slot` through the
                    // clipped end, each the canonical root at its slot.
                    &&& roots@.len() == (if start_slot <= last {
                        last + 1 - start_slot
                    } else {
                        0
                    })
                    &&& forall|k: int|
                        0 <= k < roots@.len() ==> #[trigger] roots@[k] == (
                        (match spec_chain_root_at(
                            self.canonical_head.beacon_state,
                            self.canonical_head.beacon_block_root,
                            (start_slot + k) as u64,
                        ) {
                            Some(rt) => rt,
                            None => 0u64,
                        }),
                        (start_slot + k) as u64,
                        )
                },
                Err(e) => {
                    ||| e matches ChainError::HistoricalBlockOutOfRange { .. }
                    ||| e matches ChainError::ArithmeticOverflow
                },
            },
    {
        let all = match self.forwards_iter_block_roots(start_slot) {
            Ok(v) => v,
            Err(e) => {
                return Err(e);
            },
        };
        let head_slot_e = self.canonical_head.beacon_state.slot;
        if all.len() == 0 {
            return Ok(all);
        }
        let mut clipped: Vec<(u64, u64)> = Vec::new();
        let mut k: usize = 0;
        while k < all.len()
            invariant
                self.wf(),
                k <= all@.len(),
                head_slot_e == self.canonical_head.beacon_state.slot,
                all@.len() == head_slot_e + 1 - start_slot,
                start_slot <= head_slot_e,
                forall|m: int|
                    0 <= m < all@.len() ==> #[trigger] all@[m] == (
                    (match spec_chain_root_at(
                        self.canonical_head.beacon_state,
                        self.canonical_head.beacon_block_root,
                        (start_slot + m) as u64,
                    ) {
                        Some(rt) => rt,
                        None => 0u64,
                    }),
                    (start_slot + m) as u64,
                    ),
                clipped@.len() == (if start_slot + k <= end_slot + 1 {
                    k as int
                } else if start_slot > end_slot {
                    0int
                } else {
                    end_slot + 1 - start_slot
                }),
                forall|m: int| 0 <= m < clipped@.len() ==> #[trigger] clipped@[m] == all@[m],
            decreases all@.len() - k,
        {
            if all[k].1 <= end_slot {
                clipped.push(all[k]);
            }
            k = k + 1;
        }
        Ok(clipped)
    }

    /// All canonical `(state root, slot)` pairs from `start_slot` to the
    /// head.
    pub fn forwards_iter_state_roots(&self, start_slot: u64) -> (r: Result<
        Vec<(u64, u64)>,
        ChainError,
    >)
        requires
            self.wf(),
        ensures
            match r {
                Ok(roots) => {
                    let head = self.canonical_head.beacon_state;
                    &&& (start_slot > head.slot ==> roots@.len() == 0)
                    // One entry per slot up to the head, each the
                    // recorded state root at its slot (the head state's
                    // own root at the head slot).
                    &&& (start_slot <= head.slot ==> roots@.len() == head.slot + 1 - start_slot
                        && forall|k: int|
                        0 <= k < roots@.len() ==> #[trigger] roots@[k] == (
                        (if start_slot + k >= head.slot {
                            head.current_state_root
                        } else {
                            match head.spec_state_root_at((start_slot + k) as u64) {
                                Some(rt) => rt,
                                None => 0u64,
                            }
                        }),
                        (start_slot + k) as u64,
                        ))
                },
                Err(_) => false,
            },
    {
        let head_slot = self.canonical_head.beacon_state.slot;
        if start_slot > head_slot {
            return Ok(Vec::new());
        }
        let mut roots: Vec<(u64, u64)> = Vec::new();
        let mut s = start_slot;
        while s <= head_slot
            invariant
                self.wf(),
                head_slot == self.canonical_head.beacon_state.slot,
                start_slot <= s,
                s <= head_slot + 1,
                roots@.len() == s - start_slot,
                forall|k: int|
                    0 <= k < roots@.len() ==> #[trigger] roots@[k] == (
                    (if start_slot + k >= head_slot {
                        self.canonical_head.beacon_state.current_state_root
                    } else {
                        match self.canonical_head.beacon_state.spec_state_root_at(
                            (start_slot + k) as u64,
                        ) {
                            Some(rt) => rt,
                            None => 0u64,
                        }
                    }),
                    (start_slot + k) as u64,
                    ),
            decreases head_slot + 1 - s,
        {
            let root = if s >= head_slot {
                self.canonical_head.beacon_state.current_state_root
            } else {
                match self.canonical_head.beacon_state.state_root_at(s) {
                    Some(rt) => rt,
                    None => 0,
                }
            };
            roots.push((root, s));
            s = s + 1;
        }
        Ok(roots)
    }

    /// As `forwards_iter_state_roots`, clipped to `end_slot` inclusive.
    pub fn forwards_iter_state_roots_until(&self, start_slot: u64, end_slot: u64) -> (r: Result<
        Vec<(u64, u64)>,
        ChainError,
    >)
        requires
            self.wf(),
        ensures
            match r {
                Ok(roots) => {
                    let head = self.canonical_head.beacon_state;
                    let last = if end_slot <= head.slot {
                        end_slot as int
                    } else {
                        head.slot as int
                    };
                    // One entry per slot from `start_slot` through the
                    // clipped end, each the recorded state root at its
                    // slot.
                    &&& roots@.len() == (if start_slot <= last {
                        last + 1 - start_slot
                    } else {
                        0
                    })
                    &&& forall|k: int|
                        0 <= k < roots@.len() ==> #[trigger] roots@[k] == (
                        (if start_slot + k >= head.slot {
                            head.current_state_root
                        } else {
                            match head.spec_state_root_at((start_slot + k) as u64) {
                                Some(rt) => rt,
                                None => 0u64,
                            }
                        }),
                        (start_slot + k) as u64,
                        )
                },
                Err(_) => false,
            },
    {
        let all = match self.forwards_iter_state_roots(start_slot) {
            Ok(v) => v,
            Err(e) => {
                return Err(e);
            },
        };
        let head_slot_e = self.canonical_head.beacon_state.slot;
        if start_slot > head_slot_e {
            return Ok(Vec::new());
        }
        let mut clipped: Vec<(u64, u64)> = Vec::new();
        let mut k: usize = 0;
        while k < all.len()
            invariant
                self.wf(),
                k <= all@.len(),
                head_slot_e == self.canonical_head.beacon_state.slot,
                start_slot <= head_slot_e,
                all@.len() == head_slot_e + 1 - start_slot,
                forall|m: int|
                    0 <= m < all@.len() ==> #[trigger] all@[m] == (
                    (if start_slot + m >= head_slot_e {
                        self.canonical_head.beacon_state.current_state_root
                    } else {
                        match self.canonical_head.beacon_state.spec_state_root_at(
                            (start_slot + m) as u64,
                        ) {
                            Some(rt) => rt,
                            None => 0u64,
                        }
                    }),
                    (start_slot + m) as u64,
                    ),
                clipped@.len() == (if start_slot + k <= end_slot + 1 {
                    k as int
                } else if start_slot > end_slot {
                    0int
                } else {
                    end_slot + 1 - start_slot
                }),
                forall|m: int| 0 <= m < clipped@.len() ==> #[trigger] clipped@[m] == all@[m],
            decreases all@.len() - k,
        {
            if all[k].1 <= end_slot {
                clipped.push(all[k]);
            }
            k = k + 1;
        }
        Ok(clipped)
    }

    /// The `(root, slot)` ancestry of a stored block: the block itself,
    /// then its stored parents, stopping at an unstored parent or when
    /// the fuel runs out.
    pub open spec fn spec_block_ancestry(
        blocks: Map<u64, BlockSummary>,
        root: u64,
        fuel: nat,
    ) -> Seq<(u64, u64)>
        decreases fuel,
    {
        if fuel == 0 || !blocks.contains_key(root) {
            Seq::empty()
        } else {
            seq![(root, blocks[root].slot)] + Self::spec_block_ancestry(
                blocks,
                blocks[root].parent_root,
                (fuel - 1) as nat,
            )
        }
    }

    /// The `(root, slot)` ancestry of `block_root`, the block itself
    /// first, walking stored parent links.
    pub fn rev_iter_block_roots_from(&self, block_root: u64) -> (r: Result<
        Vec<(u64, u64)>,
        ChainError,
    >)
        requires
            self.wf(),
        ensures
            match r {
                Ok(chain) => {
                    &&& chain@.len() >= 1
                    &&& chain@[0].0 == block_root
                    // The result is exactly the stored parent-link walk,
                    // bounded by the starting block's slot.
                    &&& chain@ == Self::spec_block_ancestry(
                        self.store.blocks@,
                        block_root,
                        (self.store.blocks@[block_root].slot + 1) as nat,
                    )
                },
                Err(e) => e == (ChainError::MissingBeaconBlock { block_root })
                    && !self.store.blocks@.contains_key(block_root),
            },
    {
        let first = match self.store.get_block(block_root) {
            Some(b) => b,
            None => {
                return Err(ChainError::MissingBeaconBlock { block_root });
            },
        };
        let ghost total = Self::spec_block_ancestry(
            self.store.blocks@,
            block_root,
            (self.store.blocks@[block_root].slot + 1) as nat,
        );
        let mut chain: Vec<(u64, u64)> = Vec::new();
        let mut cursor_root = first.parent_root;
        let mut fuel = first.slot;
        chain.push((block_root, first.slot));
        proof {
            assert(chain@[0] == (block_root, first.slot));
            assert(first.slot == self.store.blocks@[block_root].slot);
            assert(first.parent_root == self.store.blocks@[block_root].parent_root);
            assert(total =~= chain@ + Self::spec_block_ancestry(
                self.store.blocks@,
                cursor_root,
                fuel as nat,
            ));
        }
        while fuel > 0
            invariant
                self.wf(),
                chain@.len() >= 1,
                chain@[0].0 == block_root,
                total == Self::spec_block_ancestry(
                    self.store.blocks@,
                    block_root,
                    (self.store.blocks@[block_root].slot + 1) as nat,
                ),
                total == chain@ + Self::spec_block_ancestry(
                    self.store.blocks@,
                    cursor_root,
                    fuel as nat,
                ),
            decreases fuel,
        {
            match self.store.get_block(cursor_root) {
                Some(b) => {
                    let ghost chain_pre = chain@;
                    chain.push((cursor_root, b.slot));
                    proof {
                        assert(b.slot == self.store.blocks@[cursor_root].slot);
                        assert(b.parent_root == self.store.blocks@[cursor_root].parent_root);
                        assert(Self::spec_block_ancestry(
                            self.store.blocks@,
                            cursor_root,
                            fuel as nat,
                        ) =~= seq![(cursor_root, b.slot)] + Self::spec_block_ancestry(
                            self.store.blocks@,
                            b.parent_root,
                            (fuel - 1) as nat,
                        ));
                        assert(total =~= chain@ + Self::spec_block_ancestry(
                            self.store.blocks@,
                            b.parent_root,
                            (fuel - 1) as nat,
                        ));
                    }
                    cursor_root = b.parent_root;
                },
                None => {
                    proof {
                        assert(Self::spec_block_ancestry(
                            self.store.blocks@,
                            cursor_root,
                            fuel as nat,
                        ) =~= Seq::<(u64, u64)>::empty());
                        assert(total =~= chain@);
                    }
                    return Ok(chain);
                },
            }
            fuel = fuel - 1;
        }
        proof {
            assert(Self::spec_block_ancestry(self.store.blocks@, cursor_root, 0nat)
                =~= Seq::<(u64, u64)>::empty());
            assert(total =~= chain@);
        }
        Ok(chain)
    }

    /// The whole canonical chain from genesis to the head, as snapshots,
    /// for analysis. Expensive; meant for testing and inspection only.
    pub fn chain_dump(&self) -> (r: Result<Vec<BeaconSnapshot>, ChainError>)
        requires
            self.wf(),
        ensures
            match r {
                Ok(dump) => {
                    let rev = Self::spec_block_ancestry(
                        self.store.blocks@,
                        self.canonical_head.beacon_block_root,
                        (self.store.blocks@[self.canonical_head.beacon_block_root].slot
                            + 1) as nat,
                    );
                    &&& dump@.len() >= 1
                    &&& dump@[dump@.len() - 1].beacon_block_root
                        == self.canonical_head.beacon_block_root
                    // The dump walks the stored parent-link chain of the
                    // head, oldest first, each snapshot carrying the
                    // stored block and its stored post-state.
                    &&& dump@.len() == rev.len()
                    &&& forall|m: int|
                        0 <= m < dump@.len() ==> {
                            let root = rev[rev.len() - 1 - m].0;
                            &&& (#[trigger] dump@[m]).beacon_block_root == root
                            &&& self.store.blocks@.contains_key(root)
                            &&& dump@[m].beacon_block@ == self.store.blocks@[root]@
                            &&& self.store.states@.contains_key(
                                self.store.blocks@[root].state_root,
                            )
                            &&& dump@[m].beacon_state@ == self.store.states@[self.store.blocks@[root].state_root]@
                        }
                },
                Err(_) => true,
            },
    {
        let rev = match self.rev_iter_block_roots_from(self.canonical_head.beacon_block_root) {
            Ok(v) => v,
            Err(e) => {
                return Err(e);
            },
        };
        let mut dump: Vec<BeaconSnapshot> = Vec::new();
        let mut k = rev.len();
        while k > 0
            invariant
                self.wf(),
                k <= rev@.len(),
                rev@.len() >= 1,
                rev@[0].0 == self.canonical_head.beacon_block_root,
                rev@ == Self::spec_block_ancestry(
                    self.store.blocks@,
                    self.canonical_head.beacon_block_root,
                    (self.store.blocks@[self.canonical_head.beacon_block_root].slot + 1) as nat,
                ),
                dump@.len() == rev@.len() - k,
                forall|m: int|
                    0 <= m < dump@.len() ==> {
                        let root = rev@[rev@.len() - 1 - m].0;
                        &&& (#[trigger] dump@[m]).beacon_block_root == root
                        &&& self.store.blocks@.contains_key(root)
                        &&& dump@[m].beacon_block@ == self.store.blocks@[root]@
                        &&& self.store.states@.contains_key(self.store.blocks@[root].state_root)
                        &&& dump@[m].beacon_state@ == self.store.states@[self.store.blocks@[root].state_root]@
                    },
            decreases k,
        {
            k = k - 1;
            let entry = rev[k];
            let beacon_block = match self.store.get_block(entry.0) {
                Some(b) => b,
                None => {
                    return Err(ChainError::MissingBeaconBlock { block_root: entry.0 });
                },
            };
            let ghost root_g = entry.0;
            proof {
                assert(beacon_block.state_root == self.store.blocks@[root_g].state_root);
            }
            let beacon_state = match self.store.get_state(beacon_block.state_root) {
                Some(st) => st,
                None => {
                    return Err(
                        ChainError::MissingBeaconState { state_root: beacon_block.state_root },
                    );
                },
            };
            let root = entry.0;
            dump.push(
                BeaconSnapshot { beacon_block, beacon_block_root: root, beacon_state },
            );
        }
        proof {
            assert(dump@[dump@.len() - 1].beacon_block_root == rev@[0].0);
        }
        Ok(dump)
    }

    /// All `(state root, slot)` pairs of the chain described by
    /// `(state_root, state)`, the given state first, walking its recorded
    /// history backward through the window.
    pub fn rev_iter_state_roots_from(&self, state_root: u64, state: &StateSummary) -> (r: Vec<
        (u64, u64),
    >)
        requires
            self.wf(),
            state.wf(),
        ensures
            r@.len() >= 1,
            r@[0] == (state_root, state.slot),
            forall|k: int| 0 <= k < r@.len() ==> (#[trigger] r@[k]).1 == state.slot - k,
    {
        let mut r: Vec<(u64, u64)> = Vec::new();
        r.push((state_root, state.slot));
        let mut s = state.slot;
        while s > 0
            invariant
                state.wf(),
                s <= state.slot,
                r@.len() == state.slot - s + 1,
                r@[0] == (state_root, state.slot),
                forall|k: int| 0 <= k < r@.len() ==> (#[trigger] r@[k]).1 == state.slot - k,
            decreases s,
        {
            s = s - 1;
            let root = match state.state_root_at(s) {
                Some(rt) => rt,
                None => 0,
            };
            r.push((root, s));
        }
        r
    }

    /// The block graph over every known chain tip, canonical head first:
    /// the structured form a graph description is rendered from. Every
    /// node is a stored block, rendered once, with its stored slot and
    /// parent link and the canonical head flagged; every stored tip
    /// appears.
    pub fn chain_graph(&self) -> (r: Vec<GraphNode>)
        requires
            self.wf(),
        ensures
            forall|k: int|
                0 <= k < r@.len() ==> {
                    let node = #[trigger] r@[k];
                    &&& self.store.blocks@.contains_key(node.root)
                    &&& node.slot == self.store.blocks@[node.root].slot
                    &&& node.parent_root == self.store.blocks@[node.root].parent_root
                    &&& (node.is_canonical_head <==> node.root
                        == self.canonical_head.beacon_block_root)
                },
            forall|k1: int, k2: int|
                0 <= k1 < k2 < r@.len() ==> (#[trigger] r@[k1]).root != (#[trigger] r@[
                    k2]).root,
            forall|p: (u64, u64)| #[trigger]
                self.head_tracker.heads@.contains(p) && self.store.blocks@.contains_key(p.0)
                    ==> exists|k: int| 0 <= k < r@.len() && (#[trigger] r@[k]).root == p.0,
    {
        let heads = self.head_tracker.heads();
        let mut nodes: Vec<GraphNode> = Vec::new();
        let mut h: usize = 0;
        while h < heads.len()
            invariant
                self.wf(),
                h <= heads@.len(),
                heads@ == self.head_tracker.heads@,
                forall|k: int|
                    0 <= k < nodes@.len() ==> {
                        let node = #[trigger] nodes@[k];
                        &&& self.store.blocks@.contains_key(node.root)
                        &&& node.slot == self.store.blocks@[node.root].slot
                        &&& node.parent_root == self.store.blocks@[node.root].parent_root
                        &&& (node.is_canonical_head <==> node.root
                            == self.canonical_head.beacon_block_root)
                    },
                forall|k1: int, k2: int|
                    0 <= k1 < k2 < nodes@.len() ==> (#[trigger] nodes@[k1]).root
                        != (#[trigger] nodes@[k2]).root,
                forall|m: int|
                    0 <= m < h && self.store.blocks@.contains_key(
                        (#[trigger] heads@[m]).0,
                    ) ==> exists|k: int| 0 <= k < nodes@.len() && (#[trigger] nodes@[k]).root
                        == heads@[m].0,
            decreases heads@.len() - h,
        {
            let head_root = heads[h].0;
            // Render the tip itself, then walk its stored ancestry until
            // a block already rendered from another tip.
            if !contains_graph_node(&nodes, head_root) {
                match self.store.get_block(head_root) {
                    Some(b) => {
                        let ghost before = nodes@;
                        nodes.push(
                            GraphNode {
                                root: head_root,
                                slot: b.slot,
                                parent_root: b.parent_root,
                                is_canonical_head: head_root
                                    == self.canonical_head.beacon_block_root,
                            },
                        );
                        proof {
                            assert(nodes@[nodes@.len() - 1].root == head_root);
                            assert forall|m: int|
                                0 <= m < h && self.store.blocks@.contains_key(
                                    (#[trigger] heads@[m]).0,
                                ) implies exists|q: int|
                                0 <= q < nodes@.len() && (#[trigger] nodes@[q]).root
                                    == heads@[m].0 by {
                                let q0 = choose|q: int|
                                    0 <= q < before.len() && before[q].root == heads@[m].0;
                                assert(nodes@[q0].root == heads@[m].0);
                            }
                        }
                    },
                    None => {},
                }
            }
            match self.rev_iter_block_roots_from(head_root) {
                Ok(chain) => {
                    let mut k: usize = 1;
                    while k < chain.len()
                        invariant
                            self.wf(),
                            k >= 1,
                            k <= chain@.len(),
                            forall|q: int|
                                0 <= q < nodes@.len() ==> {
                                    let node = #[trigger] nodes@[q];
                                    &&& self.store.blocks@.contains_key(node.root)
                                    &&& node.slot == self.store.blocks@[node.root].slot
                                    &&& node.parent_root == self.store.blocks@[
                                        node.root].parent_root
                                    &&& (node.is_canonical_head <==> node.root
                                        == self.canonical_head.beacon_block_root)
                                },
                            forall|k1: int, k2: int|
                                0 <= k1 < k2 < nodes@.len() ==> (#[trigger] nodes@[k1]).root
                                    != (#[trigger] nodes@[k2]).root,
                            heads@ == self.head_tracker.heads@,
                            h < heads@.len(),
                            forall|m: int|
                                0 <= m <= h && self.store.blocks@.contains_key(
                                    (#[trigger] heads@[m]).0,
                                ) ==> exists|q: int|
                                    0 <= q < nodes@.len() && (#[trigger] nodes@[q]).root
                                        == heads@[m].0,
                        decreases chain@.len() - k,
                    {
                        let root = chain[k].0;
                        if contains_graph_node(&nodes, root) {
                            break ;
                        }
                        match self.store.get_block(root) {
                            Some(b) => {
                                let ghost before = nodes@;
                                nodes.push(
                                    GraphNode {
                                        root,
                                        slot: b.slot,
                                        parent_root: b.parent_root,
                                        is_canonical_head: root
                                            == self.canonical_head.beacon_block_root,
                                    },
                                );
                                proof {
                                    assert forall|m: int|
                                        0 <= m <= h && self.store.blocks@.contains_key(
                                            (#[trigger] heads@[m]).0,
                                        ) implies exists|q: int|
                                        0 <= q < nodes@.len() && (#[trigger] nodes@[q]).root
                                            == heads@[m].0 by {
                                        let q0 = choose|q: int|
                                            0 <= q < before.len() && before[q].root == heads@[
                                                m].0;
                                        assert(nodes@[q0].root == heads@[m].0);
                                    }
                                }
                            },
                            None => {
                                break ;
                            },
                        }
                        k = k + 1;
                    }
                },
                Err(_) => {},
            }
            h = h + 1;
        }
        nodes
    }
}

/// Whether the graph already holds a node for `root`.
fn contains_graph_node(nodes: &Vec<GraphNode>, root: u64) -> (r: bool)
    ensures
        r == exists|k: int| 0 <= k < nodes@.len() && (#[trigger] nodes@[k]).root == root,
{
    let mut k: usize = 0;
    while k < nodes.len()
        invariant
            k <= nodes@.len(),
            forall|m: int| 0 <= m < k ==> (#[trigger] nodes@[m]).root != root,
        decreases nodes@.len() - k,
    {
        if nodes[k].root == root {
            proof {
                assert(nodes@[k as int].root == root);
            }
            return true;
        }
        k = k + 1;
    }
    false
}

/// Epochs in one sync-committee period.
pub const EPOCHS_PER_SYNC_COMMITTEE_PERIOD: u64 = 4;

/// Most attestations a produced block carries.
pub const MAX_ATTESTATIONS_PER_BLOCK: usize = 128;

/// Salt for deriving the content address of a produced block.
pub const PRODUCED_BLOCK_SALT: u64 = 0x9e37_79b9_7f4a_7c15;

/// Salt for deriving the post-state root a produced block claims.
pub const PRODUCED_STATE_SALT: u64 = 0x517c_c1b7_2722_0a95;

impl BeaconChain {
    /// Check that block production is not running at a wildly wrong slot.
    pub fn wait_for_fork_choice_before_block_production(&self, slot: u64) -> (r: Result<
        (),
        BlockProductionError,
    >)
        ensures
            r is Ok <==> self.clock_slot is Some,
    {
        match self.clock_slot {
            Some(_now) => Ok(()),
            None => Err(BlockProductionError::UnableToReadSlot),
        }
    }

    /// Produce a block at `produce_at_slot` on the given state.
    ///
    /// The state is advanced to the slot; slashings, exits and compatible
    /// pool attestations are packed; an over-sized block is rejected
    /// before any transition work; and the block is applied to compute the
    /// post-state it commits to.
    pub fn produce_block_on_state(
        &mut self,
        state: StateSummary,
        _state_root_opt: Option<u64>,
        produce_at_slot: u64,
        randao_reveal: u64,
        validator_graffiti: Option<u64>,
        _verification: ProduceBlockVerification,
    ) -> (r: Result<(BlockSummary, StateSummary), BlockProductionError>)
        requires
            old(self).wf(),
            state.wf(),
        ensures
            final(self).wf(),
            final(self).clock_slot == old(self).clock_slot,
            final(self).fork_choice == old(self).fork_choice,
            final(self).canonical_head == old(self).canonical_head,
            final(self).store == old(self).store,
            // With a within-range slot and a budget that admits a fully
            // packed block, production is owed.
            (state.slot <= produce_at_slot && produce_at_slot < MAX_SLOT && old(
                self,
            ).config.max_network_size >= crate::block::BLOCK_SIZE_BASE
                + MAX_ATTESTATIONS_PER_BLOCK as u64 * crate::block::BLOCK_SIZE_PER_ATTESTATION)
                ==> r is Ok,
            match r {
                Ok((block, post_state)) => {
                    let advanced = state@.advanced(
                        old(self).spec,
                        (produce_at_slot - state.slot) as nat,
                        true,
                    );
                    &&& block.slot == produce_at_slot
                    &&& block.randao == randao_reveal
                    &&& block.graffiti == (match validator_graffiti {
                        Some(g) => g,
                        None => old(self).graffiti,
                    })
                    // The block builds on the given state: its parent is
                    // the advanced state's latest block, its proposer the
                    // scheduled one, and the post-state is exactly the
                    // transition of the candidate.
                    &&& block.parent_root == advanced.latest_block_root
                    &&& block.proposer_index == spec_proposer_for(
                        advanced.proposer_decision_root(),
                        produce_at_slot,
                        advanced.validator_count,
                    )
                    &&& post_state.wf()
                    &&& post_state@ == advanced.apply(block@)
                    &&& post_state.slot == produce_at_slot
                    &&& post_state.latest_block_root == block.root
                    &&& post_state.current_state_root == block.state_root
                    &&& block.spec_wire_size() <= old(self).config.max_network_size
                    &&& state.slot <= produce_at_slot
                },
                Err(BlockProductionError::StateSlotTooHigh { produce_at_slot: p, state_slot }) => p
                    == produce_at_slot && state_slot == state.slot && state.slot
                    > produce_at_slot,
                Err(BlockProductionError::UnableToProduceAtSlot { .. }) => state.slot
                    <= produce_at_slot && produce_at_slot >= MAX_SLOT,
                Err(BlockProductionError::BlockTooLarge { block_size }) => block_size > old(
                    self,
                ).config.max_network_size,
                Err(_) => false,
            },
    {
        if state.slot > produce_at_slot {
            return Err(
                BlockProductionError::StateSlotTooHigh {
                    produce_at_slot,
                    state_slot: state.slot,
                },
            );
        }
        if produce_at_slot >= MAX_SLOT {
            return Err(BlockProductionError::UnableToProduceAtSlot { slot: produce_at_slot });
        }
        // Advance the state fully into the production slot.
        let ghost base_abs = state@;
        let ghost base_slot = state.slot;
        let mut state = state;
        while state.slot < produce_at_slot
            invariant
                state.wf(),
                state.slot <= produce_at_slot,
                produce_at_slot < MAX_SLOT,
                base_slot <= state.slot,
                state@ == base_abs.advanced(
                    self.spec,
                    (state.slot - base_slot) as nat,
                    true,
                ),
            decreases produce_at_slot - state.slot,
        {
            state.advance_slot(&self.spec, true);
        }
        let parent_root = state.latest_block_root;

        // Flush the naive aggregation pool into the operation pool.
        let flushed = self.naive_aggregation_pool.all_attestations();
        let mut f: usize = 0;
        while f < flushed.len()
            invariant
                self.wf(),
                f <= flushed@.len(),
                self.clock_slot == old(self).clock_slot,
                self.fork_choice == old(self).fork_choice,
                self.canonical_head == old(self).canonical_head,
                self.store == old(self).store,
                self.graffiti == old(self).graffiti,
                self.config == old(self).config,
            decreases flushed@.len() - f,
        {
            self.op_pool.insert_attestation(flushed[f].duplicate());
            f = f + 1;
        }

        // Pack compatible attestations, memoizing the shuffling check.
        let mut filter_cache: Vec<((u64, u64), bool)> = Vec::new();
        let mut attestations: Vec<Attestation> = Vec::new();
        let mut k: usize = 0;
        while k < self.op_pool.attestations.len()
            invariant
                self.wf(),
                state.wf(),
                k <= self.op_pool.attestations@.len(),
                attestations@.len() <= k,
                attestations@.len() <= MAX_ATTESTATIONS_PER_BLOCK,
                self.clock_slot == old(self).clock_slot,
                self.fork_choice == old(self).fork_choice,
                self.canonical_head == old(self).canonical_head,
                self.store == old(self).store,
                self.graffiti == old(self).graffiti,
                self.config == old(self).config,
            decreases self.op_pool.attestations@.len() - k,
        {
            if attestations.len() >= MAX_ATTESTATIONS_PER_BLOCK {
                break ;
            }
            let att = self.op_pool.attestations[k].duplicate();
            if self.filter_op_pool_attestation(&mut filter_cache, &att, &state) {
                attestations.push(att);
            }
            k = k + 1;
        }

        let graffiti = match validator_graffiti {
            Some(g) => g,
            None => self.graffiti,
        };
        let proposer_index = crate::state::proposer_for(
            state.proposer_decision_root(),
            produce_at_slot,
            state.validator_count,
        );
        let root = randao_reveal ^ produce_at_slot ^ PRODUCED_BLOCK_SALT;
        let block = BlockSummary {
            root,
            slot: produce_at_slot,
            parent_root,
            proposer_index,
            state_root: root ^ PRODUCED_STATE_SALT,
            randao: randao_reveal,
            fork_version: state.fork_version,
            payload_block_hash: if self.slot_is_prior_to_bellatrix(produce_at_slot) {
                None
            } else {
                Some(root ^ 0xe11)
            },
            graffiti,
            attestations,
        };

        // Reject an over-sized block before the transition work.
        let block_size = block.wire_size();
        if block_size > self.config.max_network_size {
            return Err(BlockProductionError::BlockTooLarge { block_size });
        }

        // Run the state transition against the candidate to compute the
        // post-state it commits to; the candidate was assembled to pass
        // every transition check.
        match state.apply_block(&block, &self.spec) {
            Ok(()) => Ok((block, state)),
            Err(_) => {
                proof {
                    assert(false);
                }
                Err(BlockProductionError::UnableToProduceAtSlot { slot: produce_at_slot })
            },
        }
    }

    /// Produce a block at `slot`, choosing a base state from the head.
    pub fn produce_block_with_verification(
        &mut self,
        randao_reveal: u64,
        slot: u64,
        validator_graffiti: Option<u64>,
        verification: ProduceBlockVerification,
    ) -> (r: Result<(BlockSummary, StateSummary), BlockProductionError>)
        requires
            old(self).wf(),
        ensures
            final(self).wf(),
            final(self).clock_slot == old(self).clock_slot,
            match r {
                Ok((block, post_state)) => block.slot == slot && post_state.slot == slot
                    && post_state.latest_block_root == block.root,
                Err(_) => true,
            },
    {
        match self.wait_for_fork_choice_before_block_production(slot) {
            Ok(()) => {},
            Err(e) => {
                return Err(e);
            },
        }
        let head_slot = self.canonical_head.beacon_state.slot;
        let state = if head_slot <= slot {
            self.canonical_head.beacon_state.duplicate()
        } else {
            if slot == 0 {
                return Err(BlockProductionError::UnableToProduceAtSlot { slot });
            }
            match self.state_at_slot(slot - 1, StateSkipConfig::WithStateRoots) {
                Ok(st) => st,
                Err(_) => {
                    return Err(BlockProductionError::UnableToProduceAtSlot { slot });
                },
            }
        };
        proof {
            if head_slot <= slot {
                crate::state::lemma_wf_from_view(self.canonical_head.beacon_state, state);
            }
        }
        self.produce_block_on_state(
            state,
            None,
            slot,
            randao_reveal,
            validator_graffiti,
            verification,
        )
    }

    /// Produce a block at `slot` with randao verification, as validators
    /// request it.
    pub fn produce_block(
        &mut self,
        randao_reveal: u64,
        slot: u64,
        validator_graffiti: Option<u64>,
    ) -> (r: Result<(BlockSummary, StateSummary), BlockProductionError>)
        requires
            old(self).wf(),
        ensures
            final(self).wf(),
            final(self).clock_slot == old(self).clock_slot,
            match r {
                Ok((block, post_state)) => block.slot == slot && post_state.slot == slot
                    && post_state.latest_block_root == block.root,
                Err(_) => true,
            },
    {
        self.produce_block_with_verification(
            randao_reveal,
            slot,
            validator_graffiti,
            ProduceBlockVerification::VerifyRandao,
        )
    }

    /// Persist the operation pool.
    pub fn persist_op_pool(&mut self) -> (r: Result<(), ChainError>)
        requires
            old(self).wf(),
        ensures
            final(self).wf(),
            final(self).clock_slot == old(self).clock_slot,
            r is Ok,
            final(self).store.persisted_op_pool == Some(
                old(self).op_pool.attestations@.len() as u64,
            ),
            final(self).store.persisted_fork_choice == old(self).store.persisted_fork_choice,
            final(self).store.persisted_heads == old(self).store.persisted_heads,
            final(self).store.blocks@ == old(self).store.blocks@,
            final(self).store.states@ == old(self).store.states@,
    {
        let n = self.op_pool.attestations.len() as u64;
        self.store.persisted_op_pool = Some(n);
        Ok(())
    }

    /// Explicit shutdown lifecycle: persist the head, fork choice and the
    /// operation pool before the process exits. Durability of consensus
    /// state must never rely on implicit destruction order.
    pub fn shutdown(&mut self) -> (r: Result<(), ChainError>)
        requires
            old(self).wf(),
        ensures
            final(self).wf(),
            final(self).store.persisted_fork_choice is Some,
            final(self).store.persisted_heads is Some,
            final(self).store.persisted_op_pool is Some,
    {
        self.persist_head_and_fork_choice();
        self.persist_op_pool()
    }

    /// Load the persisted fork-choice structure, if one was written.
    pub fn load_fork_choice(&self) -> (r: Option<ForkChoice>)
        requires
            self.wf(),
        ensures
            r is Some,
            r->0.wf(),
            r->0.nodes@ == self.store.persisted_fork_choice->0.nodes@,
            r->0.index_of@ == self.store.persisted_fork_choice->0.index_of@,
            r->0.votes@ == self.store.persisted_fork_choice->0.votes@,
            r->0.justified_checkpoint == self.store.persisted_fork_choice->0.justified_checkpoint,
            r->0.finalized_checkpoint == self.store.persisted_fork_choice->0.finalized_checkpoint,
    {
        self.store.load_fork_choice()
    }

    /// The validator index for a public key; in the model a key is its
    /// index.
    pub fn validator_index(&self, pubkey: u64) -> (r: Option<u64>)
        ensures
            r == if pubkey < self.validator_pubkey_count {
                Some(pubkey)
            } else {
                None::<u64>
            },
    {
        if pubkey < self.validator_pubkey_count {
            Some(pubkey)
        } else {
            None
        }
    }

    /// The indices of several public keys; unknown keys are an error.
    pub fn validator_indices(&self, validator_pubkeys: &Vec<u64>) -> (r: Result<
        Vec<u64>,
        ChainError,
    >)
        ensures
            match r {
                Ok(indices) => indices@ == validator_pubkeys@,
                Err(e) => e matches ChainError::ValidatorPubkeyUnknown { .. },
            },
    {
        let mut indices: Vec<u64> = Vec::new();
        let mut k: usize = 0;
        while k < validator_pubkeys.len()
            invariant
                k <= validator_pubkeys@.len(),
                indices@ == validator_pubkeys@.subrange(0, k as int),
            decreases validator_pubkeys@.len() - k,
        {
            let pk = validator_pubkeys[k];
            match self.validator_index(pk) {
                Some(i) => {
                    indices.push(i);
                },
                None => {
                    return Err(ChainError::ValidatorPubkeyUnknown { pubkey: pk });
                },
            }
            k = k + 1;
        }
        proof {
            assert(validator_pubkeys@.subrange(0, validator_pubkeys@.len() as int)
                == validator_pubkeys@);
        }
        Ok(indices)
    }

    /// The public key of a validator index; in the model an index is its
    /// key.
    pub fn validator_pubkey(&self, validator_index: u64) -> (r: Option<u64>)
        ensures
            r == if validator_index < self.validator_pubkey_count {
                Some(validator_index)
            } else {
                None::<u64>
            },
    {
        if validator_index < self.validator_pubkey_count {
            Some(validator_index)
        } else {
            None
        }
    }

    /// As `validator_pubkey`, in compressed-bytes form.
    pub fn validator_pubkey_bytes(&self, validator_index: u64) -> (r: Option<u64>)
        ensures
            r == if validator_index < self.validator_pubkey_count {
                Some(validator_index)
            } else {
                None::<u64>
            },
    {
        self.validator_pubkey(validator_index)
    }

    /// Resolve several indices at once; unresolvable ones are left out.
    pub fn validator_pubkey_bytes_many(&self, validator_indices: &Vec<u64>) -> (r: Vec<
        (u64, u64),
    >)
        ensures
            r@.len() <= validator_indices@.len(),
    {
        let mut map: Vec<(u64, u64)> = Vec::new();
        let mut k: usize = 0;
        while k < validator_indices.len()
            invariant
                k <= validator_indices@.len(),
                map@.len() <= k,
            decreases validator_indices@.len() - k,
        {
            let v = validator_indices[k];
            match self.validator_pubkey_bytes(v) {
                Some(pk) => {
                    map.push((v, pk));
                },
                None => {},
            }
            k = k + 1;
        }
        map
    }

    /// The sync committee serving `epoch` on the canonical chain.
    pub fn sync_committee_at_epoch(&self, epoch: u64) -> (r: Result<Vec<u64>, ChainError>)
        requires
            self.wf(),
        ensures
            match r {
                Ok(c) => c@ == crate::state::spec_committee(
                    self.canonical_head.beacon_block_root,
                    (epoch * SLOTS_PER_EPOCH) as u64,
                    self.canonical_head.beacon_state.validator_count,
                ),
                Err(e) => e == ChainError::ArithmeticOverflow && epoch >= MAX_SLOT,
            },
    {
        if epoch >= MAX_SLOT {
            return Err(ChainError::ArithmeticOverflow);
        }
        Ok(
            crate::state::compute_committee(
                self.canonical_head.beacon_block_root,
                epoch * SLOTS_PER_EPOCH,
                self.canonical_head.beacon_state.validator_count,
            ),
        )
    }

    /// The sync committee serving `slot + 1`, as sync messages are signed
    /// one slot ahead.
    pub fn sync_committee_at_next_slot(&self, slot: u64) -> (r: Result<Vec<u64>, ChainError>)
        requires
            self.wf(),
        ensures
            r is Err ==> r == Err::<Vec<u64>, ChainError>(ChainError::ArithmeticOverflow),
    {
        if slot >= MAX_SLOT {
            return Err(ChainError::ArithmeticOverflow);
        }
        self.sync_committee_at_epoch((slot + 1) / SLOTS_PER_EPOCH)
    }

    /// A state suitable for sync-committee duties of the given period:
    /// the start of the previous period, clipped to the first upgrade.
    pub fn state_for_sync_committee_period(&self, sync_committee_period: u64) -> (r: Result<
        StateSummary,
        ChainError,
    >)
        requires
            self.wf(),
        ensures
            r is Ok ==> r->Ok_0.wf(),
    {
        let base_epoch = match self.spec.altair_fork_epoch {
            Some(a) => a,
            None => {
                return Err(ChainError::ArithmeticOverflow);
            },
        };
        let prev_period = if sync_committee_period > 0 {
            sync_committee_period - 1
        } else {
            0
        };
        if prev_period >= MAX_SLOT / EPOCHS_PER_SYNC_COMMITTEE_PERIOD {
            return Err(ChainError::ArithmeticOverflow);
        }
        let mut epoch = prev_period * EPOCHS_PER_SYNC_COMMITTEE_PERIOD;
        if epoch < base_epoch {
            epoch = base_epoch;
        }
        if epoch >= MAX_SLOT {
            return Err(ChainError::ArithmeticOverflow);
        }
        self.state_at_slot(epoch * SLOTS_PER_EPOCH, StateSkipConfig::WithoutStateRoots)
    }

    /// Sync-committee duties of the given validators at `epoch`, read
    /// from the head.
    pub fn sync_committee_duties_from_head(
        &self,
        epoch: u64,
        validator_indices: &Vec<u64>,
    ) -> (r: Result<Vec<Option<u64>>, ChainError>)
        requires
            self.wf(),
        ensures
            r is Ok ==> r->Ok_0@.len() == validator_indices@.len(),
    {
        let committee = match self.sync_committee_at_epoch(epoch) {
            Ok(c) => c,
            Err(e) => {
                return Err(e);
            },
        };
        let mut duties: Vec<Option<u64>> = Vec::new();
        let mut k: usize = 0;
        while k < validator_indices.len()
            invariant
                k <= validator_indices@.len(),
                duties@.len() == k,
            decreases validator_indices@.len() - k,
        {
            let v = validator_indices[k];
            let mut duty: Option<u64> = None;
            let mut m: usize = 0;
            while m < committee.len()
                invariant
                    m <= committee@.len(),
                decreases committee@.len() - m,
            {
                if committee[m] == v {
                    duty = Some(m as u64);
                    break ;
                }
                m = m + 1;
            }
            duties.push(duty);
            k = k + 1;
        }
        Ok(duties)
    }

    /// The fork identifier advertised on the network: the fork version at
    /// the wall clock, or at genesis when the clock cannot be read.
    pub fn enr_fork_id(&self) -> (r: u64)
        ensures
            r == self.spec.spec_fork_version_at_epoch(
                spec_epoch_of(
                    match self.clock_slot {
                        Some(s) => s,
                        None => 0u64,
                    },
                ),
            ),
    {
        let slot = match self.clock_slot {
            Some(s) => s,
            None => 0,
        };
        self.spec.fork_version_at_epoch(slot / SLOTS_PER_EPOCH)
    }

    /// Seconds until the next scheduled fork, with its version, if one is
    /// still ahead of the wall clock.
    pub fn duration_to_next_fork(&self) -> (r: Option<(u64, u64)>)
    {
        let slot = match self.clock_slot {
            Some(s) => s,
            None => 0,
        };
        let epoch = slot / SLOTS_PER_EPOCH;
        let next = match self.spec.bellatrix_fork_epoch {
            Some(b) => {
                if b > epoch {
                    Some((2u64, b))
                } else {
                    match self.spec.altair_fork_epoch {
                        Some(a) if a > epoch => Some((1u64, a)),
                        _ => None,
                    }
                }
            },
            None => match self.spec.altair_fork_epoch {
                Some(a) if a > epoch => Some((1u64, a)),
                _ => None,
            },
        };
        match next {
            Some((version, fork_epoch)) => {
                if fork_epoch < MAX_SLOT && slot < MAX_SLOT && self.spec.seconds_per_slot
                    < 0x1_0000 {
                    let fork_slot = fork_epoch * SLOTS_PER_EPOCH;
                    if fork_slot > slot {
                        let diff = fork_slot - slot;
                        let sps = self.spec.seconds_per_slot;
                        proof {
                            assert(diff * sps < 0x1_0000_0000_0000_0000) by (nonlinear_arith)
                                requires
                                    diff < 0x10_0000_0000,
                                    sps < 0x1_0000,
                            ;
                        }
                        Some((version, diff * sps))
                    } else {
                        None
                    }
                } else {
                    None
                }
            },
            None => None,
        }
    }

    /// Verify several one-signer attestations for gossip at once.
    pub fn batch_verify_unaggregated_attestations_for_gossip(
        &mut self,
        attestations: Vec<Attestation>,
    ) -> (r: Vec<Result<VerifiedUnaggregatedAttestation, ChainError>>)
        requires
            old(self).wf(),
        ensures
            final(self).wf(),
            final(self).clock_slot == old(self).clock_slot,
            r@.len() == attestations@.len(),
    {
        let mut results: Vec<Result<VerifiedUnaggregatedAttestation, ChainError>> = Vec::new();
        let mut rest = attestations;
        let ghost n0 = rest@.len();
        while rest.len() > 0
            invariant
                self.wf(),
                self.clock_slot == old(self).clock_slot,
                results@.len() + rest@.len() == n0,
                n0 == attestations@.len(),
            decreases rest@.len(),
        {
            let a = rest.remove(0);
            results.push(self.verify_unaggregated_attestation_for_gossip(a, None));
        }
        results
    }

    /// Verify several aggregates for gossip at once.
    pub fn batch_verify_aggregated_attestations_for_gossip(
        &mut self,
        aggregates: Vec<(Attestation, u64)>,
    ) -> (r: Vec<Result<VerifiedAggregatedAttestation, ChainError>>)
        requires
            old(self).wf(),
        ensures
            final(self).wf(),
            final(self).clock_slot == old(self).clock_slot,
            r@.len() == aggregates@.len(),
    {
        let mut results: Vec<Result<VerifiedAggregatedAttestation, ChainError>> = Vec::new();
        let mut rest = aggregates;
        let ghost n0 = rest@.len();
        while rest.len() > 0
            invariant
                self.wf(),
                self.clock_slot == old(self).clock_slot,
                results@.len() + rest@.len() == n0,
                n0 == aggregates@.len(),
            decreases rest@.len(),
        {
            let (a, aggregator) = rest.remove(0);
            results.push(self.verify_aggregated_attestation_for_gossip(a, aggregator));
        }
        results
    }
}

} // verus!
