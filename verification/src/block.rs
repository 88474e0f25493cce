//! Model blocks and attestations.
//!
//! A block is summarised by the plain values the engine's logic reads:
//! roots, slots, the proposer, the execution payload hash and the
//! attestations carried in the body. Signatures are opaque cryptography and
//! are not modelled; an attestation carries its attesting validator indices
//! directly, as the indexed form does.

use vstd::prelude::*;
use crate::primitives::Checkpoint;

verus! {

/// The vote content of an attestation.
#[derive(Clone, Copy, PartialEq, Eq, Structural, Debug)]
pub struct AttestationData {
    /// Slot the attestation points at.
    pub slot: u64,
    /// Committee index within the slot.
    pub index: u64,
    /// Head block the attesters vote for.
    pub beacon_block_root: u64,
    /// Most recent justified checkpoint in the attesters' view.
    pub source: Checkpoint,
    /// The epoch-boundary checkpoint being attested to.
    pub target: Checkpoint,
}

/// An attestation: vote content plus the validators that signed it.
#[derive(Clone, PartialEq, Eq, Debug)]
pub struct Attestation {
    pub data: AttestationData,
    /// Indices of the validators whose signatures are aggregated here.
    pub attesting_indices: Vec<u64>,
}

/// Mathematical value of an `Attestation`.
pub ghost struct AttestationAbs {
    pub data: AttestationData,
    pub attesting_indices: Seq<u64>,
}

impl View for Attestation {
    type V = AttestationAbs;

    open spec fn view(&self) -> AttestationAbs {
        AttestationAbs { data: self.data, attesting_indices: self.attesting_indices@ }
    }
}

/// Mathematical values of a sequence of attestations.
pub open spec fn atts_abs(s: Seq<Attestation>) -> Seq<AttestationAbs> {
    s.map_values(|a: Attestation| a@)
}

/// A candidate or imported block, reduced to the values the engine reads.
#[derive(Clone, PartialEq, Eq, Debug)]
pub struct BlockSummary {
    /// The block root (the content address of the block).
    pub root: u64,
    pub slot: u64,
    pub parent_root: u64,
    pub proposer_index: u64,
    /// Root the proposer claims for the post-state of this block.
    pub state_root: u64,
    /// Proposer's randao contribution, mixed into the state on import.
    pub randao: u64,
    /// Fork version the block was encoded for.
    pub fork_version: u64,
    /// Execution payload block hash; `None` before the merge transition.
    pub payload_block_hash: Option<u64>,
    /// Arbitrary bytes chosen by the proposer, reduced to one word.
    pub graffiti: u64,
    pub attestations: Vec<Attestation>,
}

/// Mathematical value of a `BlockSummary`.
pub ghost struct BlockAbs {
    pub root: u64,
    pub slot: u64,
    pub parent_root: u64,
    pub proposer_index: u64,
    pub state_root: u64,
    pub randao: u64,
    pub fork_version: u64,
    pub payload_block_hash: Option<u64>,
    pub graffiti: u64,
    pub attestations: Seq<AttestationAbs>,
}

impl View for BlockSummary {
    type V = BlockAbs;

    open spec fn view(&self) -> BlockAbs {
        BlockAbs {
            root: self.root,
            slot: self.slot,
            parent_root: self.parent_root,
            proposer_index: self.proposer_index,
            state_root: self.state_root,
            randao: self.randao,
            fork_version: self.fork_version,
            payload_block_hash: self.payload_block_hash,
            graffiti: self.graffiti,
            attestations: atts_abs(self.attestations@),
        }
    }
}

/// Byte cost charged per attestation in the modelled wire size.
pub const BLOCK_SIZE_PER_ATTESTATION: u64 = 200;

/// Fixed byte cost of a block in the modelled wire size.
pub const BLOCK_SIZE_BASE: u64 = 100;

impl BlockSummary {
    /// Modelled wire size of the block, as a mathematical integer.
    pub open spec fn spec_wire_size(self) -> int {
        BLOCK_SIZE_BASE + self.attestations@.len() * BLOCK_SIZE_PER_ATTESTATION
    }

    /// Modelled wire size of the block.
    pub fn wire_size(&self) -> (n: u64)
        requires
            self.attestations@.len() <= 0x1000_0000,
        ensures
            n == self.spec_wire_size(),
    {
        let count: u64 = self.attestations.len() as u64;
        BLOCK_SIZE_BASE + count * BLOCK_SIZE_PER_ATTESTATION
    }
}

impl Attestation {
    /// Copy with a known contract.
    pub fn duplicate(&self) -> (a: Attestation)
        ensures
            a@ == self@,
    {
        Attestation {
            data: self.data,
            attesting_indices: crate::primitives::copy_u64_vec(&self.attesting_indices),
        }
    }
}

/// The mathematical value of a pushed sequence is the pushed mathematical
/// value.
pub proof fn lemma_atts_abs_push(s: Seq<Attestation>, a: Attestation)
    ensures
        atts_abs(s.push(a)) == atts_abs(s).push(a@),
{
    assert(atts_abs(s.push(a)) =~= atts_abs(s).push(a@));
}

/// Copy a vector of attestations with a known contract.
pub fn copy_attestations(v: &Vec<Attestation>) -> (r: Vec<Attestation>)
    ensures
        atts_abs(r@) == atts_abs(v@),
{
    let mut r: Vec<Attestation> = Vec::new();
    let mut i: usize = 0;
    while i < v.len()
        invariant
            i <= v@.len(),
            atts_abs(r@) == atts_abs(v@.subrange(0, i as int)),
        decreases v@.len() - i,
    {
        let ghost prev = r@;
        let a = v[i].duplicate();
        let ghost a_snap = a;
        r.push(a);
        proof {
            lemma_atts_abs_push(prev, a_snap);
            lemma_atts_abs_push(v@.subrange(0, i as int), v@[i as int]);
            assert(v@.subrange(0, i as int).push(v@[i as int]) =~= v@.subrange(0, i as int + 1));
        }
        i = i + 1;
    }
    proof {
        assert(v@.subrange(0, v@.len() as int) == v@);
    }
    r
}

impl BlockSummary {
    /// Copy with a known contract.
    pub fn duplicate(&self) -> (b: BlockSummary)
        ensures
            b@ == self@,
    {
        BlockSummary {
            root: self.root,
            slot: self.slot,
            parent_root: self.parent_root,
            proposer_index: self.proposer_index,
            state_root: self.state_root,
            randao: self.randao,
            fork_version: self.fork_version,
            payload_block_hash: self.payload_block_hash,
            graffiti: self.graffiti,
            attestations: copy_attestations(&self.attestations),
        }
    }
}

/// Returns the root of the given block.
///
/// In the modelled data a block carries its own content address, so this is
/// a projection rather than a hash computation.
pub fn get_block_root(block: &BlockSummary) -> (r: u64)
    ensures
        r == block.root,
{
    block.root
}

} // verus!
