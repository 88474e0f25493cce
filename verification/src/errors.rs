//! Error taxonomy of the engine.
//!
//! A `BlockError` is a typed rejection of a single candidate block; it is
//! never fatal. A `ChainError` covers resource problems, internal
//! inconsistencies and protocol-safety fatal conditions.

use vstd::prelude::*;

verus! {

/// Typed rejection of a candidate block.
#[derive(Clone, Copy, PartialEq, Eq, Structural, Debug)]
pub enum BlockError {
    /// The block's fork version does not match the fork at its slot.
    InconsistentFork,
    /// The block's slot is ahead of the wall clock.
    FutureSlot { present_slot: u64, block_slot: u64 },
    /// A chain segment's parent roots do not form a chain.
    NonLinearParentRoots,
    /// A chain segment's slots are not strictly increasing.
    NonLinearSlots,
    /// The block root is already tracked by fork choice.
    BlockIsAlreadyKnown,
    /// The block is the genesis block itself.
    GenesisBlock,
    /// The block is at or before the finalized slot.
    WouldRevertFinalizedSlot { block_slot: u64, finalized_slot: u64 },
    /// The block's parent is known but does not descend from the finalized block.
    NotFinalizedDescendant { block_parent_root: u64 },
    /// The block's parent is not known to the chain.
    ParentUnknown { parent_root: u64 },
    /// The block's parent carries an invalidated execution payload.
    ParentExecutionPayloadInvalid { parent_root: u64 },
    /// The state transition rejected the block.
    StateTransitionError,
    /// The block's proposer does not match the scheduled proposer.
    IncorrectBlockProposer { block: u64, local_shuffling: u64 },
    /// A configured weak-subjectivity checkpoint contradicts the chain.
    WeakSubjectivityConflict,
    /// An internal engine error occurred while handling the block.
    BeaconChainError(ChainError),
}

/// Engine-level error: contention, inconsistency or a fatal safety condition.
#[derive(Clone, Copy, PartialEq, Eq, Structural, Debug)]
pub enum ChainError {
    /// The slot clock could not be read.
    UnableToReadSlot,
    /// A candidate head's finalized epoch moved backwards; fatal.
    RevertedFinalizedEpoch { previous_epoch: u64, new_epoch: u64 },
    /// The finalized block carries an invalid execution payload; fatal.
    InvalidFinalizedPayload { finalized_root: u64, execution_block_hash: u64 },
    /// The justified block carries an invalid execution payload; fatal.
    JustifiedPayloadInvalid { justified_root: u64 },
    /// A block expected in storage was missing.
    MissingBeaconBlock { block_root: u64 },
    /// A state expected in storage was missing.
    MissingBeaconState { state_root: u64 },
    /// No state could be produced for the requested slot.
    NoStateForSlot { slot: u64 },
    /// The requested attestation slot is before the finalized slot.
    AttestingToFinalizedSlot { finalized_slot: u64, request_slot: u64 },
    /// The requested attestation slot is out of the historical window.
    AttestingToAncientSlot { lowest_permissible_slot: u64, request_slot: u64 },
    /// The block referenced by an attestation has an unconfirmed payload.
    HeadBlockNotFullyVerified { beacon_block_root: u64 },
    /// The head root is not tracked by fork choice.
    HeadMissingFromForkChoice { beacon_block_root: u64 },
    /// The attestation references a block below finalization.
    CannotAttestToFinalizedBlock { beacon_block_root: u64 },
    /// The aligned ancestor walk compared different slots; inconsistency.
    InvalidReorgSlotIter { new_slot: u64, old_slot: u64 },
    /// A root iteration returned a slot other than the requested one.
    InconsistentForwardsIter { request_slot: u64, slot: u64 },
    /// A state advance was asked to skip more than the permitted bound.
    StateSkipTooLarge { start_slot: u64, requested_slot: u64 },
    /// The storage collaborator failed.
    DBError(StoreError),
    /// No shuffling with the requested epoch is reachable from the block.
    InvalidShufflingId { shuffling_epoch: u64, head_block_epoch: u64 },
    /// The block's state is too far ahead of the requested shuffling epoch.
    InvalidStateForShuffling { state_epoch: u64, shuffling_epoch: u64 },
    /// No proposer is scheduled for the slot.
    NoProposerForSlot { slot: u64 },
    /// The state root of the finalized state could not be found.
    MissingFinalizedStateRoot { slot: u64 },
    /// The weak-subjectivity checkpoint did not match the chain.
    WeakSubjectivityVerificationFailure,
    /// The execution engine reported valid a payload already invalidated.
    ValidatingInvalidBlock { block_root: u64 },
    /// The execution engine rejected the payload named in a fork-choice
    /// update.
    ExecutionForkChoiceUpdateInvalid,
    /// The validator already published an attestation for this epoch.
    PriorAttestationKnown { validator_index: u64, epoch: u64 },
    /// The requested slot is before the period of stored history.
    HistoricalBlockOutOfRange { slot: u64, oldest_block_slot: u64 },
    /// The vote does not carry exactly one signer.
    NotExactlyOneAggregationBitSet { signers: u64 },
    /// The public key does not belong to a known validator.
    ValidatorPubkeyUnknown { pubkey: u64 },
    /// An arithmetic bound of the model was exceeded.
    ArithmeticOverflow,
}

/// Typed failure of block production.
#[derive(Clone, Copy, PartialEq, Eq, Structural, Debug)]
pub enum BlockProductionError {
    /// The supplied state is already past the production slot.
    StateSlotTooHigh { produce_at_slot: u64, state_slot: u64 },
    /// The assembled block exceeds the maximum network size.
    BlockTooLarge { block_size: u64 },
    /// The slot clock could not be read.
    UnableToReadSlot,
    /// No state could be found to produce at the slot.
    UnableToProduceAtSlot { slot: u64 },
    /// Head information could not be read.
    UnableToGetHeadInfo,
    /// The engine-level error that stopped production.
    ChainError(ChainError),
}

/// Typed failure of the storage collaborator. A partial-batch failure is
/// surfaced distinctly from "not found".
#[derive(Clone, Copy, PartialEq, Eq, Structural, Debug)]
pub enum StoreError {
    /// The atomic batch write failed; nothing was applied.
    AtomicWriteFailed,
}

} // verus!
