//! Basic chain quantities: slots, epochs, roots and checkpoints, and the
//! execution-payload verification status attached to every tracked block.

use vstd::prelude::*;

verus! {

/// Number of consecutive slots in one epoch.
pub const SLOTS_PER_EPOCH: u64 = 8;

/// Length of the historical block-root window kept by a state; an ancestor
/// search during re-org detection never walks further back than this.
pub const SLOTS_PER_HISTORICAL_ROOT: u64 = 64;

/// How old (in slots) a block may be and still be served from the early
/// attester cache.
pub const EARLY_ATTESTER_CACHE_HISTORIC_SLOTS: u64 = 4;

/// If the head block is more than this many epochs behind the wall clock,
/// proposer preparation is skipped.
pub const PREPARE_PROPOSER_HISTORIC_EPOCHS: u64 = 4;

/// The epoch that contains `slot`.
pub open spec fn spec_epoch_of(slot: u64) -> u64 {
    slot / SLOTS_PER_EPOCH
}

/// The first slot of `epoch`, as a mathematical integer (it may exceed
/// `u64::MAX` for absurdly large epochs, so the executable version is
/// restricted).
pub open spec fn spec_start_slot(epoch: u64) -> int {
    epoch * SLOTS_PER_EPOCH
}

/// Executable epoch-of-slot computation.
pub fn epoch_of(slot: u64) -> (e: u64)
    ensures
        e == spec_epoch_of(slot),
{
    slot / SLOTS_PER_EPOCH
}

/// Executable first-slot-of-epoch computation.
pub fn start_slot(epoch: u64) -> (s: u64)
    requires
        epoch <= u64::MAX as int / SLOTS_PER_EPOCH as int,
    ensures
        s == spec_start_slot(epoch),
{
    epoch * SLOTS_PER_EPOCH
}

/// Copy a vector of words; a copy with a known contract, unlike the
/// derived `Clone` on containers.
pub fn copy_u64_vec(v: &Vec<u64>) -> (r: Vec<u64>)
    ensures
        r@ == v@,
{
    let mut r: Vec<u64> = Vec::new();
    let mut i: usize = 0;
    while i < v.len()
        invariant
            i <= v@.len(),
            r@ == v@.subrange(0, i as int),
        decreases v@.len() - i,
    {
        r.push(v[i]);
        i = i + 1;
    }
    proof {
        assert(v@.subrange(0, v@.len() as int) == v@);
    }
    r
}

/// An (epoch, block root) pair that has accrued validator support.
#[derive(Clone, Copy, PartialEq, Eq, Structural, Debug)]
pub struct Checkpoint {
    pub epoch: u64,
    pub root: u64,
}

/// Describes whether an execution engine has confirmed a block's payload.
///
/// Once a block transitions to `Invalid`, no descendant may remain `Valid`;
/// invalidation propagates to all descendants of the latest valid ancestor.
#[derive(Clone, Copy, PartialEq, Eq, Structural, Debug)]
pub enum ExecutionStatus {
    /// The execution engine confirmed the payload with this block hash.
    Valid(u64),
    /// The execution engine rejected the payload with this block hash.
    Invalid(u64),
    /// The payload with this block hash has not yet been checked.
    Optimistic(u64),
    /// The block pre-dates the merge transition and carries no payload.
    Irrelevant,
}

impl ExecutionStatus {
    /// True when attesting to the block is safe: the payload is confirmed
    /// or the block needs no confirmation.
    pub open spec fn spec_is_valid_or_irrelevant(self) -> bool {
        match self {
            ExecutionStatus::Valid(_) => true,
            ExecutionStatus::Irrelevant => true,
            _ => false,
        }
    }

    /// Executable form of `spec_is_valid_or_irrelevant`.
    pub fn is_valid_or_irrelevant(&self) -> (r: bool)
        ensures
            r == self.spec_is_valid_or_irrelevant(),
    {
        match self {
            ExecutionStatus::Valid(_) => true,
            ExecutionStatus::Irrelevant => true,
            _ => false,
        }
    }

    /// True when the execution engine rejected the payload.
    pub open spec fn spec_is_invalid(self) -> bool {
        self is Invalid
    }

    /// Executable form of `spec_is_invalid`.
    pub fn is_invalid(&self) -> (r: bool)
        ensures
            r == self.spec_is_invalid(),
    {
        match self {
            ExecutionStatus::Invalid(_) => true,
            _ => false,
        }
    }

    /// True when the payload has not yet been confirmed or rejected.
    pub open spec fn spec_is_optimistic(self) -> bool {
        self is Optimistic
    }

    /// Executable form of `spec_is_optimistic`.
    pub fn is_optimistic(&self) -> (r: bool)
        ensures
            r == self.spec_is_optimistic(),
    {
        match self {
            ExecutionStatus::Optimistic(_) => true,
            _ => false,
        }
    }

    /// The execution block hash carried by the status, if any.
    pub open spec fn spec_block_hash(self) -> Option<u64> {
        match self {
            ExecutionStatus::Valid(h) => Some(h),
            ExecutionStatus::Invalid(h) => Some(h),
            ExecutionStatus::Optimistic(h) => Some(h),
            ExecutionStatus::Irrelevant => None,
        }
    }

    /// Executable form of `spec_block_hash`.
    pub fn block_hash(&self) -> (r: Option<u64>)
        ensures
            r == self.spec_block_hash(),
    {
        match self {
            ExecutionStatus::Valid(h) => Some(*h),
            ExecutionStatus::Invalid(h) => Some(*h),
            ExecutionStatus::Optimistic(h) => Some(*h),
            ExecutionStatus::Irrelevant => None,
        }
    }
}

} // verus!
