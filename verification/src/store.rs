//! The storage collaborator: an in-memory hot database with atomic
//! multi-key batches and fault injection.
//!
//! The import pipeline relies on `do_atomically`: either every operation of
//! a batch is applied or none is, and a failed batch is surfaced distinctly
//! from "not found". A test may arm `fail_next_write` to exercise the
//! crash-consistency path of the engine.

use vstd::prelude::*;
use std::collections::HashMap;
use crate::block::BlockSummary;
use crate::state::StateSummary;
use crate::fork_choice::ForkChoice;
use crate::errors::StoreError;

verus! {

broadcast use vstd::std_specs::hash::group_hash_axioms;

/// One write in an atomic batch.
pub enum StoreOp {
    PutBlock(BlockSummary),
    PutState(u64, StateSummary),
}

/// Block map after applying a prefix of a batch.
pub open spec fn spec_apply_blocks(m: Map<u64, BlockSummary>, ops: Seq<StoreOp>) -> Map<
    u64,
    BlockSummary,
>
    decreases ops.len(),
{
    if ops.len() == 0 {
        m
    } else {
        let rest = spec_apply_blocks(m, ops.drop_last());
        match ops.last() {
            StoreOp::PutBlock(b) => rest.insert(b.root, b),
            StoreOp::PutState(_, _) => rest,
        }
    }
}

/// State map after applying a prefix of a batch.
pub open spec fn spec_apply_states(m: Map<u64, StateSummary>, ops: Seq<StoreOp>) -> Map<
    u64,
    StateSummary,
>
    decreases ops.len(),
{
    if ops.len() == 0 {
        m
    } else {
        let rest = spec_apply_states(m, ops.drop_last());
        match ops.last() {
            StoreOp::PutBlock(_) => rest,
            StoreOp::PutState(r, st) => rest.insert(r, st),
        }
    }
}

/// The hot database.
pub struct Store {
    /// Blocks by block root.
    pub blocks: HashMap<u64, BlockSummary>,
    /// States by state root.
    pub states: HashMap<u64, StateSummary>,
    /// The persisted fork-choice snapshot, if one was ever written.
    pub persisted_fork_choice: Option<ForkChoice>,
    /// The persisted head-tracker record: `(genesis root, heads)`.
    pub persisted_heads: Option<(u64, Vec<(u64, u64)>)>,
    /// Count of pool attestations at the last operation-pool persist.
    pub persisted_op_pool: Option<u64>,
    /// When armed, the next atomic batch fails and applies nothing.
    pub fail_next_write: bool,
    /// Slot of the oldest stored block; requests below it are out of range.
    pub oldest_block_slot: u64,
}

impl Store {
    /// An empty store.
    pub fn new() -> (s: Store)
        ensures
            s.blocks@ == Map::<u64, BlockSummary>::empty(),
            s.states@ == Map::<u64, StateSummary>::empty(),
            s.persisted_fork_choice is None,
            s.persisted_heads is None,
            s.persisted_op_pool is None,
            !s.fail_next_write,
            s.oldest_block_slot == 0,
    {
        Store {
            blocks: HashMap::new(),
            states: HashMap::new(),
            persisted_fork_choice: None,
            persisted_heads: None,
            persisted_op_pool: None,
            fail_next_write: false,
            oldest_block_slot: 0,
        }
    }

    /// Whether a block with this root is stored.
    pub fn contains_block(&self, block_root: u64) -> (r: bool)
        ensures
            r == self.blocks@.contains_key(block_root),
    {
        self.blocks.contains_key(&block_root)
    }

    /// The stored block with this root, if any.
    pub fn get_block(&self, block_root: u64) -> (r: Option<BlockSummary>)
        ensures
            match r {
                Some(b) => self.blocks@.contains_key(block_root) && b@ == self.blocks@[
                    block_root]@,
                None => !self.blocks@.contains_key(block_root),
            },
    {
        match self.blocks.get(&block_root) {
            Some(b) => Some(b.duplicate()),
            None => None,
        }
    }

    /// Store a block outside any batch.
    pub fn put_block(&mut self, block: BlockSummary)
        ensures
            final(self).blocks@ == old(self).blocks@.insert(block.root, block),
            final(self).states@ == old(self).states@,
            final(self).persisted_fork_choice == old(self).persisted_fork_choice,
            final(self).persisted_heads == old(self).persisted_heads,
            final(self).fail_next_write == old(self).fail_next_write,
            final(self).oldest_block_slot == old(self).oldest_block_slot,
    {
        let root = block.root;
        self.blocks.insert(root, block);
    }

    /// The stored state with this root, if any.
    pub fn get_state(&self, state_root: u64) -> (r: Option<StateSummary>)
        ensures
            match r {
                Some(st) => self.states@.contains_key(state_root) && st@ == self.states@[
                    state_root]@,
                None => !self.states@.contains_key(state_root),
            },
    {
        match self.states.get(&state_root) {
            Some(st) => Some(st.duplicate()),
            None => None,
        }
    }

    /// Store a state outside any batch.
    pub fn put_state(&mut self, state_root: u64, state: StateSummary)
        ensures
            final(self).states@ == old(self).states@.insert(state_root, state),
            final(self).blocks@ == old(self).blocks@,
            final(self).persisted_fork_choice == old(self).persisted_fork_choice,
            final(self).persisted_heads == old(self).persisted_heads,
            final(self).fail_next_write == old(self).fail_next_write,
            final(self).oldest_block_slot == old(self).oldest_block_slot,
    {
        self.states.insert(state_root, state);
    }

    /// Apply a batch of writes atomically: on success every operation is
    /// applied in order; on failure none is, and the fault is disarmed so a
    /// retry can succeed.
    pub fn do_atomically(&mut self, ops: Vec<StoreOp>) -> (r: Result<(), StoreError>)
        ensures
            final(self).persisted_fork_choice == old(self).persisted_fork_choice,
            final(self).persisted_heads == old(self).persisted_heads,
            final(self).oldest_block_slot == old(self).oldest_block_slot,
            match r {
                Ok(()) => {
                    &&& !old(self).fail_next_write
                    &&& final(self).blocks@ == spec_apply_blocks(old(self).blocks@, ops@)
                    &&& final(self).states@ == spec_apply_states(old(self).states@, ops@)
                    &&& final(self).fail_next_write == old(self).fail_next_write
                },
                Err(e) => {
                    &&& e == StoreError::AtomicWriteFailed
                    &&& old(self).fail_next_write
                    &&& final(self).blocks@ == old(self).blocks@
                    &&& final(self).states@ == old(self).states@
                    &&& !final(self).fail_next_write
                },
            },
    {
        if self.fail_next_write {
            self.fail_next_write = false;
            return Err(StoreError::AtomicWriteFailed);
        }
        let mut ops = ops;
        let ghost all_ops = ops@;
        let mut i: usize = 0;
        let n = ops.len();
        // Consume the batch front to back.
        while ops.len() > 0
            invariant
                i + ops@.len() == n,
                n == all_ops.len(),
                ops@ == all_ops.subrange(i as int, n as int),
                self.blocks@ == spec_apply_blocks(old(self).blocks@, all_ops.subrange(0, i as int)),
                self.states@ == spec_apply_states(old(self).states@, all_ops.subrange(0, i as int)),
                self.persisted_fork_choice == old(self).persisted_fork_choice,
                self.persisted_heads == old(self).persisted_heads,
                self.fail_next_write == old(self).fail_next_write,
                self.oldest_block_slot == old(self).oldest_block_slot,
            decreases ops@.len(),
        {
            let op = ops.remove(0);
            proof {
                assert(op == all_ops[i as int]);
                assert(all_ops.subrange(0, i + 1).drop_last() == all_ops.subrange(0, i as int));
                assert(all_ops.subrange(0, i + 1).last() == all_ops[i as int]);
                assert(all_ops.subrange(i as int, n as int).remove(0) == all_ops.subrange(
                    i + 1,
                    n as int,
                ));
            }
            match op {
                StoreOp::PutBlock(b) => {
                    let root = b.root;
                    self.blocks.insert(root, b);
                },
                StoreOp::PutState(r, st) => {
                    self.states.insert(r, st);
                },
            }
            i = i + 1;
        }
        proof {
            assert(all_ops.subrange(0, n as int) == all_ops);
        }
        Ok(())
    }

    /// Persist the fork-choice structure; a later load returns this copy.
    pub fn persist_fork_choice(&mut self, fc: &ForkChoice)
        ensures
            final(self).persisted_fork_choice is Some,
            final(self).persisted_fork_choice->0.nodes@ == fc.nodes@,
            final(self).persisted_fork_choice->0.index_of@ == fc.index_of@,
            final(self).persisted_fork_choice->0.votes@ == fc.votes@,
            final(self).persisted_fork_choice->0.justified_checkpoint == fc.justified_checkpoint,
            final(self).persisted_fork_choice->0.finalized_checkpoint == fc.finalized_checkpoint,
            fc.wf() ==> final(self).persisted_fork_choice->0.wf(),
            final(self).blocks@ == old(self).blocks@,
            final(self).states@ == old(self).states@,
            final(self).persisted_heads == old(self).persisted_heads,
            final(self).fail_next_write == old(self).fail_next_write,
            final(self).oldest_block_slot == old(self).oldest_block_slot,
    {
        self.persisted_fork_choice = Some(fc.duplicate());
    }

    /// Load the persisted fork-choice snapshot, if any.
    pub fn load_fork_choice(&self) -> (r: Option<ForkChoice>)
        ensures
            match r {
                Some(fc) => {
                    &&& self.persisted_fork_choice is Some
                    &&& fc.nodes@ == self.persisted_fork_choice->0.nodes@
                    &&& fc.index_of@ == self.persisted_fork_choice->0.index_of@
                    &&& fc.votes@ == self.persisted_fork_choice->0.votes@
                    &&& fc.justified_checkpoint
                        == self.persisted_fork_choice->0.justified_checkpoint
                    &&& fc.finalized_checkpoint
                        == self.persisted_fork_choice->0.finalized_checkpoint
                    &&& self.persisted_fork_choice->0.wf() ==> fc.wf()
                },
                None => self.persisted_fork_choice is None,
            },
    {
        match &self.persisted_fork_choice {
            Some(fc) => Some(fc.duplicate()),
            None => None,
        }
    }

    /// Persist the head-tracker record.
    pub fn persist_heads(&mut self, genesis_block_root: u64, heads: Vec<(u64, u64)>)
        ensures
            final(self).persisted_heads is Some,
            (final(self).persisted_heads->0).0 == genesis_block_root,
            (final(self).persisted_heads->0).1@ == heads@,
            final(self).blocks@ == old(self).blocks@,
            final(self).states@ == old(self).states@,
            final(self).persisted_fork_choice == old(self).persisted_fork_choice,
            final(self).fail_next_write == old(self).fail_next_write,
            final(self).oldest_block_slot == old(self).oldest_block_slot,
    {
        self.persisted_heads = Some((genesis_block_root, heads));
    }
}

/// When a batch only writes well-formed states over a map of well-formed
/// states, every state in the result is well-formed.
pub proof fn lemma_apply_states_wf(m: Map<u64, StateSummary>, ops: Seq<StoreOp>)
    requires
        forall|r: u64| m.contains_key(r) ==> (#[trigger] m[r]).wf(),
        forall|k: int|
            0 <= k < ops.len() ==> match #[trigger] ops[k] {
                StoreOp::PutState(_, st) => st.wf(),
                StoreOp::PutBlock(_) => true,
            },
    ensures
        forall|r: u64|
            spec_apply_states(m, ops).contains_key(r) ==> (#[trigger] spec_apply_states(m, ops)[
                r]).wf(),
    decreases ops.len(),
{
    if ops.len() > 0 {
        assert(forall|k: int| 0 <= k < ops.len() - 1 ==> ops.drop_last()[k] == #[trigger] ops[k]);
        lemma_apply_states_wf(m, ops.drop_last());
        assert(ops[ops.len() - 1] == ops.last());
        let rest = spec_apply_states(m, ops.drop_last());
        match ops.last() {
            StoreOp::PutState(r0, st) => {
                assert(spec_apply_states(m, ops) == rest.insert(r0, st));
                assert(st.wf());
                assert forall|r: u64|
                    spec_apply_states(m, ops).contains_key(r) implies (
                #[trigger] spec_apply_states(m, ops)[r]).wf() by {
                    if r != r0 {
                        assert(rest.contains_key(r));
                        assert(spec_apply_states(m, ops)[r] == rest[r]);
                    }
                }
            },
            StoreOp::PutBlock(_) => {
                assert(spec_apply_states(m, ops) == rest);
            },
        }
    }
}

/// When a batch only writes blocks under their own root over a map keyed
/// that way, the result is keyed that way too.
pub proof fn lemma_apply_blocks_rooted(m: Map<u64, BlockSummary>, ops: Seq<StoreOp>)
    requires
        forall|r: u64| m.contains_key(r) ==> (#[trigger] m[r]).root == r,
    ensures
        forall|r: u64|
            spec_apply_blocks(m, ops).contains_key(r) ==> (#[trigger] spec_apply_blocks(m, ops)[
                r]).root == r,
    decreases ops.len(),
{
    if ops.len() > 0 {
        lemma_apply_blocks_rooted(m, ops.drop_last());
        let rest = spec_apply_blocks(m, ops.drop_last());
        match ops.last() {
            StoreOp::PutBlock(b) => {
                assert(spec_apply_blocks(m, ops) == rest.insert(b.root, b));
                assert forall|r: u64|
                    spec_apply_blocks(m, ops).contains_key(r) implies (
                #[trigger] spec_apply_blocks(m, ops)[r]).root == r by {
                    if r != b.root {
                        assert(rest.contains_key(r));
                        assert(spec_apply_blocks(m, ops)[r] == rest[r]);
                    }
                }
            },
            StoreOp::PutState(_, _) => {
                assert(spec_apply_blocks(m, ops) == rest);
            },
        }
    }
}

} // verus!
