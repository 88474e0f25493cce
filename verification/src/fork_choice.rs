//! The fork-choice structure: a block DAG with execution statuses, latest
//! votes, and greedy heaviest-subtree head selection.
//!
//! Every tracked block is a node holding its parent (always at a smaller
//! index, so the vector is topologically ordered), its checkpoints and its
//! execution status. Head selection walks from the justified block towards
//! the heaviest non-invalidated child. Payload invalidation marks a path of
//! ancestors and then sweeps every descendant, so that no descendant of an
//! invalid block ever stays valid.

use vstd::prelude::*;
use vstd::pervasive::VecAdditionalExecFns;
use std::collections::HashMap;
use crate::primitives::{Checkpoint, ExecutionStatus};
use crate::errors::ChainError;

verus! {

broadcast use vstd::std_specs::hash::group_hash_axioms;

/// A block tracked by fork choice.
#[derive(Clone, Copy, PartialEq, Eq, Structural, Debug)]
pub struct ProtoNode {
    pub root: u64,
    /// Index of the parent node; `None` only for the anchor.
    pub parent: Option<usize>,
    pub slot: u64,
    pub state_root: u64,
    /// Justified checkpoint carried by the block's post-state.
    pub justified_checkpoint: Checkpoint,
    /// Finalized checkpoint carried by the block's post-state.
    pub finalized_checkpoint: Checkpoint,
    pub execution_status: ExecutionStatus,
}

/// The latest vote seen from one validator.
#[derive(Clone, Copy, PartialEq, Eq, Structural, Debug)]
pub struct Vote {
    pub root: u64,
    pub epoch: u64,
}

/// `a` is `d` itself or a transitive parent of `d` (indices into `nodes`).
pub open spec fn spec_is_ancestor(nodes: Seq<ProtoNode>, a: int, d: int) -> bool
    decreases d,
{
    if d < 0 || d >= nodes.len() {
        false
    } else if a == d {
        true
    } else {
        match nodes[d].parent {
            Some(p) => if (p as int) < d {
                spec_is_ancestor(nodes, a, p as int)
            } else {
                false
            },
            None => false,
        }
    }
}

/// An ancestor never has a larger index than its descendant.
pub proof fn lemma_ancestor_index_le(nodes: Seq<ProtoNode>, a: int, d: int)
    requires
        spec_is_ancestor(nodes, a, d),
    ensures
        0 <= a <= d,
    decreases d,
{
    if a != d {
        match nodes[d].parent {
            Some(p) => {
                lemma_ancestor_index_le(nodes, a, p as int);
            },
            None => {},
        }
    }
}

/// Ancestry is transitive.
pub proof fn lemma_ancestor_trans(nodes: Seq<ProtoNode>, a: int, b: int, c: int)
    requires
        spec_is_ancestor(nodes, a, b),
        spec_is_ancestor(nodes, b, c),
    ensures
        spec_is_ancestor(nodes, a, c),
    decreases c,
{
    if b != c {
        match nodes[c].parent {
            Some(p) => {
                if (p as int) < c {
                    lemma_ancestor_trans(nodes, a, b, p as int);
                }
            },
            None => {},
        }
    }
}

/// The fork-choice structure.
pub struct ForkChoice {
    /// All tracked blocks, parents before children.
    pub nodes: Vec<ProtoNode>,
    /// Block root to node index.
    pub index_of: HashMap<u64, usize>,
    /// Latest vote per validator index.
    pub votes: Vec<Option<Vote>>,
    /// The justified checkpoint head selection starts from.
    pub justified_checkpoint: Checkpoint,
    /// The finalized checkpoint; never decreases in epoch.
    pub finalized_checkpoint: Checkpoint,
}

impl ForkChoice {
    /// Nodes are topologically ordered and the index map is exactly the
    /// root-to-index bijection; the justified and finalized roots are
    /// tracked; a child of an invalid block is invalid.
    pub open spec fn wf(self) -> bool {
        let nodes = self.nodes@;
        let imap = self.index_of@;
        &&& nodes.len() >= 1
        &&& forall|i: int|
            0 <= i < nodes.len() ==> match #[trigger] nodes[i].parent {
                Some(p) => p < i,
                None => true,
            }
        &&& forall|i: int|
            0 <= i < nodes.len() ==> #[trigger] imap.contains_key(nodes[i].root)
                && imap[nodes[i].root] == i
        &&& forall|r: u64| #[trigger]
            imap.contains_key(r) ==> imap[r] < nodes.len() && nodes[imap[r] as int].root == r
        &&& imap.contains_key(self.justified_checkpoint.root)
        &&& imap.contains_key(self.finalized_checkpoint.root)
        &&& forall|i: int|
            0 <= i < nodes.len() ==> match #[trigger] nodes[i].parent {
                Some(p) => nodes[p as int].execution_status is Invalid
                    ==> nodes[i].execution_status is Invalid,
                None => true,
            }
    }

    /// The root is tracked.
    pub open spec fn spec_contains(self, root: u64) -> bool {
        self.index_of@.contains_key(root)
    }

    /// The node tracked for a root.
    pub open spec fn spec_node_of(self, root: u64) -> ProtoNode {
        self.nodes@[self.index_of@[root] as int]
    }

    /// A structure holding exactly the anchor block.
    pub fn from_anchor(
        root: u64,
        slot: u64,
        state_root: u64,
        justified: Checkpoint,
        finalized: Checkpoint,
        execution_status: ExecutionStatus,
    ) -> (fc: ForkChoice)
        requires
            justified.root == root,
            finalized.root == root,
        ensures
            fc.wf(),
            fc.nodes@.len() == 1,
            fc.nodes@[0] == (ProtoNode {
                root,
                parent: None,
                slot,
                state_root,
                justified_checkpoint: justified,
                finalized_checkpoint: finalized,
                execution_status,
            }),
            fc.votes@.len() == 0,
            fc.justified_checkpoint == justified,
            fc.finalized_checkpoint == finalized,
            fc.spec_contains(root),
            forall|r: u64| #[trigger] fc.spec_contains(r) ==> r == root,
    {
        let node = ProtoNode {
            root,
            parent: None,
            slot,
            state_root,
            justified_checkpoint: justified,
            finalized_checkpoint: finalized,
            execution_status,
        };
        let mut nodes: Vec<ProtoNode> = Vec::new();
        nodes.push(node);
        let mut index_of: HashMap<u64, usize> = HashMap::new();
        index_of.insert(root, 0);
        ForkChoice {
            nodes,
            index_of,
            votes: Vec::new(),
            justified_checkpoint: justified,
            finalized_checkpoint: finalized,
        }
    }

    /// Index of the node tracked for `root`, if any.
    pub fn find_index(&self, root: u64) -> (r: Option<usize>)
        requires
            self.wf(),
        ensures
            match r {
                Some(i) => self.spec_contains(root) && self.index_of@[root] == i && i
                    < self.nodes@.len() && self.nodes@[i as int].root == root,
                None => !self.spec_contains(root),
            },
    {
        match self.index_of.get(&root) {
            Some(i) => Some(*i),
            None => None,
        }
    }

    /// Whether fork choice tracks a block with this root.
    pub fn contains_block(&self, root: u64) -> (r: bool)
        requires
            self.wf(),
        ensures
            r == self.spec_contains(root),
    {
        self.index_of.contains_key(&root)
    }

    /// The node tracked for `root`, if any.
    pub fn get_block(&self, root: u64) -> (r: Option<ProtoNode>)
        requires
            self.wf(),
        ensures
            match r {
                Some(node) => self.spec_contains(root) && node == self.spec_node_of(root)
                    && node.root == root,
                None => !self.spec_contains(root),
            },
    {
        match self.find_index(root) {
            Some(i) => Some(self.nodes[i]),
            None => None,
        }
    }

    /// Execution status of the block tracked for `root`, if any.
    pub fn get_block_execution_status(&self, root: u64) -> (r: Option<ExecutionStatus>)
        requires
            self.wf(),
        ensures
            match r {
                Some(status) => self.spec_contains(root) && status == self.spec_node_of(
                    root,
                ).execution_status,
                None => !self.spec_contains(root),
            },
    {
        match self.get_block(root) {
            Some(node) => Some(node.execution_status),
            None => None,
        }
    }

    /// The node of the finalized checkpoint.
    pub fn get_finalized_block(&self) -> (r: ProtoNode)
        requires
            self.wf(),
        ensures
            r == self.spec_node_of(self.finalized_checkpoint.root),
            r.root == self.finalized_checkpoint.root,
    {
        let i = self.index_of.get(&self.finalized_checkpoint.root).unwrap();
        self.nodes[*i]
    }

    /// The node of the justified checkpoint.
    pub fn get_justified_block(&self) -> (r: ProtoNode)
        requires
            self.wf(),
        ensures
            r == self.spec_node_of(self.justified_checkpoint.root),
            r.root == self.justified_checkpoint.root,
    {
        let i = self.index_of.get(&self.justified_checkpoint.root).unwrap();
        self.nodes[*i]
    }

    /// Whether node `a` is node `d` or one of its ancestors.
    pub fn is_ancestor_idx(&self, a: usize, d: usize) -> (r: bool)
        requires
            self.wf(),
            a < self.nodes@.len(),
            d < self.nodes@.len(),
        ensures
            r == spec_is_ancestor(self.nodes@, a as int, d as int),
    {
        let mut c = d;
        loop
            invariant
                self.wf(),
                a < self.nodes@.len(),
                c < self.nodes@.len(),
                spec_is_ancestor(self.nodes@, a as int, d as int) == spec_is_ancestor(
                    self.nodes@,
                    a as int,
                    c as int,
                ),
            decreases c,
        {
            if c == a {
                return true;
            }
            if c < a {
                proof {
                    if spec_is_ancestor(self.nodes@, a as int, c as int) {
                        lemma_ancestor_index_le(self.nodes@, a as int, c as int);
                    }
                }
                return false;
            }
            match self.nodes[c].parent {
                Some(p) => {
                    c = p;
                },
                None => {
                    return false;
                },
            }
        }
    }

    /// Whether the block at `ancestor_root` is an ancestor of (or equal to)
    /// the block at `descendant_root`; false when either is untracked.
    pub fn is_ancestor_root(&self, ancestor_root: u64, descendant_root: u64) -> (r: bool)
        requires
            self.wf(),
        ensures
            r == (self.spec_contains(ancestor_root) && self.spec_contains(descendant_root)
                && spec_is_ancestor(
                self.nodes@,
                self.index_of@[ancestor_root] as int,
                self.index_of@[descendant_root] as int,
            )),
    {
        match (self.find_index(ancestor_root), self.find_index(descendant_root)) {
            (Some(a), Some(d)) => self.is_ancestor_idx(a, d),
            _ => false,
        }
    }

    /// Register a block.
    ///
    /// The parent must be tracked and must not be invalidated; the root
    /// must be new. The block's checkpoints advance the structure's
    /// justified and finalized checkpoints when their epoch is higher.
    pub fn on_block(
        &mut self,
        root: u64,
        parent_root: u64,
        slot: u64,
        state_root: u64,
        justified: Checkpoint,
        finalized: Checkpoint,
        execution_status: ExecutionStatus,
    ) -> (r: Result<(), ChainError>)
        requires
            old(self).wf(),
            !old(self).spec_contains(root),
            old(self).spec_contains(parent_root),
            !(old(self).spec_node_of(parent_root).execution_status is Invalid),
            !(execution_status is Invalid),
            old(self).nodes@.len() < usize::MAX,
        ensures
            r is Ok,
            final(self).wf(),
            final(self).nodes@ == old(self).nodes@.push(
                ProtoNode {
                    root,
                    parent: Some(old(self).index_of@[parent_root]),
                    slot,
                    state_root,
                    justified_checkpoint: justified,
                    finalized_checkpoint: finalized,
                    execution_status,
                },
            ),
            final(self).index_of@ == old(self).index_of@.insert(
                root,
                old(self).nodes@.len() as usize,
            ),
            final(self).votes@ == old(self).votes@,
            final(self).spec_contains(root),
            final(self).justified_checkpoint == if justified.epoch > old(
                self,
            ).justified_checkpoint.epoch && final(self).spec_contains(justified.root) {
                justified
            } else {
                old(self).justified_checkpoint
            },
            final(self).finalized_checkpoint == if finalized.epoch > old(
                self,
            ).finalized_checkpoint.epoch && final(self).spec_contains(finalized.root) {
                finalized
            } else {
                old(self).finalized_checkpoint
            },
    {
        let parent_index = self.index_of.get(&parent_root).unwrap();
        let new_index = self.nodes.len();
        let node = ProtoNode {
            root,
            parent: Some(*parent_index),
            slot,
            state_root,
            justified_checkpoint: justified,
            finalized_checkpoint: finalized,
            execution_status,
        };
        self.nodes.push(node);
        self.index_of.insert(root, new_index);
        if justified.epoch > self.justified_checkpoint.epoch && self.index_of.contains_key(
            &justified.root,
        ) {
            self.justified_checkpoint = justified;
        }
        if finalized.epoch > self.finalized_checkpoint.epoch && self.index_of.contains_key(
            &finalized.root,
        ) {
            self.finalized_checkpoint = finalized;
        }
        proof {
            assert forall|i: int|
                0 <= i < self.nodes@.len() implies #[trigger] self.index_of@.contains_key(
                self.nodes@[i].root,
            ) && self.index_of@[self.nodes@[i].root] == i by {
                if i < old(self).nodes@.len() {
                    assert(old(self).index_of@.contains_key(old(self).nodes@[i].root));
                }
            }
        }
        Ok(())
    }

    /// Record a validator's latest vote, keeping it only when its epoch is
    /// strictly newer than the one already tracked. The vote vector grows
    /// on demand.
    pub fn on_attestation(&mut self, validator: u64, root: u64, epoch: u64) -> (r: Result<
        (),
        ChainError,
    >)
        requires
            old(self).wf(),
            validator < 0x1000_0000,
        ensures
            final(self).wf(),
            final(self).nodes@ == old(self).nodes@,
            final(self).index_of@ == old(self).index_of@,
            final(self).justified_checkpoint == old(self).justified_checkpoint,
            final(self).finalized_checkpoint == old(self).finalized_checkpoint,
            match r {
                Ok(()) => {
                    &&& old(self).spec_contains(root)
                    &&& final(self).votes@.len() >= validator + 1
                    &&& final(self).votes@.len() == if old(self).votes@.len() >= validator + 1 {
                        old(self).votes@.len() as int
                    } else {
                        validator + 1
                    }
                    &&& final(self).votes@[validator as int] == (match (if validator < old(
                        self,
                    ).votes@.len() {
                        old(self).votes@[validator as int]
                    } else {
                        None
                    }) {
                        Some(prev) => if epoch > prev.epoch {
                            Some(Vote { root, epoch })
                        } else {
                            Some(prev)
                        },
                        None => Some(Vote { root, epoch }),
                    })
                    &&& forall|v: int|
                        0 <= v < final(self).votes@.len() && v != validator
                            ==> final(self).votes@[v] == (if v < old(self).votes@.len() {
                            old(self).votes@[v]
                        } else {
                            None
                        })
                },
                Err(e) => {
                    &&& e == (ChainError::HeadMissingFromForkChoice { beacon_block_root: root })
                    &&& !old(self).spec_contains(root)
                    &&& final(self).votes@ == old(self).votes@
                },
            },
    {
        if !self.index_of.contains_key(&root) {
            return Err(ChainError::HeadMissingFromForkChoice { beacon_block_root: root });
        }
        let v = validator as usize;
        while self.votes.len() < v + 1
            invariant
                old(self).wf(),
                v < 0x1000_0000,
                self.votes@.len() == old(self).votes@.len() || self.votes@.len() <= v + 1,
                self.votes@.len() >= old(self).votes@.len(),
                old(self).votes@.len() >= v + 1 ==> self.votes@.len() == old(self).votes@.len(),
                self.nodes@ == old(self).nodes@,
                self.index_of@ == old(self).index_of@,
                self.justified_checkpoint == old(self).justified_checkpoint,
                self.finalized_checkpoint == old(self).finalized_checkpoint,
                forall|k: int|
                    0 <= k < self.votes@.len() ==> self.votes@[k] == (if k < old(
                        self,
                    ).votes@.len() {
                        old(self).votes@[k]
                    } else {
                        None
                    }),
            decreases v + 1 - self.votes@.len(),
        {
            self.votes.push(None);
        }
        let updated: Option<Vote> = match self.votes[v] {
            Some(prev) => if epoch > prev.epoch {
                Some(Vote { root, epoch })
            } else {
                Some(prev)
            },
            None => Some(Vote { root, epoch }),
        };
        self.votes.set(v, updated);
        Ok(())
    }
}

/// Whether `vote` supports node `i`: the vote's block is tracked and node
/// `i` is an ancestor of (or equal to) the voted block.
pub open spec fn spec_vote_supports(
    nodes: Seq<ProtoNode>,
    imap: Map<u64, usize>,
    vote: Option<Vote>,
    i: int,
) -> bool {
    match vote {
        Some(v) => imap.contains_key(v.root) && spec_is_ancestor(nodes, i, imap[v.root] as int),
        None => false,
    }
}

/// Number of validators with index below `m` whose latest vote supports
/// node `i`.
pub open spec fn spec_weight_upto(
    nodes: Seq<ProtoNode>,
    imap: Map<u64, usize>,
    votes: Seq<Option<Vote>>,
    i: int,
    m: int,
) -> int
    decreases m,
{
    if m <= 0 {
        0
    } else {
        spec_weight_upto(nodes, imap, votes, i, m - 1) + if 0 <= m - 1 < votes.len()
            && spec_vote_supports(nodes, imap, votes[m - 1], i) {
            1int
        } else {
            0int
        }
    }
}

/// Total attestation weight of the subtree rooted at node `i`: one unit per
/// validator whose latest vote lands in that subtree.
pub open spec fn spec_weight(fc: ForkChoice, i: int) -> int {
    spec_weight_upto(fc.nodes@, fc.index_of@, fc.votes@, i, fc.votes@.len() as int)
}

/// Node `j` is a child of node `i` that has not been invalidated.
pub open spec fn spec_viable_child(nodes: Seq<ProtoNode>, i: int, j: int) -> bool {
    &&& 0 <= j < nodes.len()
    &&& nodes[j].parent is Some
    &&& nodes[j].parent->0 == i
    &&& !(nodes[j].execution_status is Invalid)
}

/// Node `j` beats node `k`: strictly heavier, or equally heavy with the
/// larger root as the tie-breaker.
pub open spec fn spec_better(fc: ForkChoice, j: int, k: int) -> bool {
    ||| spec_weight(fc, j) > spec_weight(fc, k)
    ||| (spec_weight(fc, j) == spec_weight(fc, k) && fc.nodes@[j].root > fc.nodes@[k].root)
}

/// The winning viable child of node `i` among children with index below
/// `m`.
pub open spec fn spec_best_child_upto(fc: ForkChoice, i: int, m: int) -> Option<int>
    decreases m,
{
    if m <= 0 {
        None
    } else {
        let prev = spec_best_child_upto(fc, i, m - 1);
        let j = m - 1;
        if spec_viable_child(fc.nodes@, i, j) {
            match prev {
                None => Some(j),
                Some(k) => if spec_better(fc, j, k) {
                    Some(j)
                } else {
                    Some(k)
                },
            }
        } else {
            prev
        }
    }
}

/// The winning viable child of node `i`, if it has any viable child.
pub open spec fn spec_best_child(fc: ForkChoice, i: int) -> Option<int> {
    spec_best_child_upto(fc, i, fc.nodes@.len() as int)
}

/// A best child is itself a viable child.
pub proof fn lemma_best_child_viable(fc: ForkChoice, i: int, m: int)
    ensures
        match spec_best_child_upto(fc, i, m) {
            Some(j) => spec_viable_child(fc.nodes@, i, j) && j < m,
            None => true,
        },
    decreases m,
{
    if m > 0 {
        lemma_best_child_viable(fc, i, m - 1);
    }
}

/// The greedy walk towards heaviest viable children, bounded by `fuel`
/// steps; the walk only ever descends to strictly larger indices, so the
/// node count is always enough fuel.
pub open spec fn spec_head_from(fc: ForkChoice, i: int, fuel: nat) -> int
    decreases fuel,
{
    if fuel == 0 {
        i
    } else {
        match spec_best_child(fc, i) {
            None => i,
            Some(c) => if i < c {
                spec_head_from(fc, c, (fuel - 1) as nat)
            } else {
                i
            },
        }
    }
}

/// The index selected by head selection: the greedy walk started at the
/// justified block.
pub open spec fn spec_head_index(fc: ForkChoice) -> int {
    spec_head_from(
        fc,
        fc.index_of@[fc.justified_checkpoint.root] as int,
        fc.nodes@.len() as nat,
    )
}

/// Head selection never walks into an invalidated block, and always stays
/// in the subtree of its starting point.
pub proof fn lemma_head_from_safe(fc: ForkChoice, i: int, fuel: nat)
    requires
        fc.wf(),
        0 <= i < fc.nodes@.len(),
    ensures
        spec_is_ancestor(fc.nodes@, i, spec_head_from(fc, i, fuel)),
        !(fc.nodes@[i].execution_status is Invalid) ==> !(fc.nodes@[spec_head_from(
            fc,
            i,
            fuel,
        )].execution_status is Invalid),
        0 <= spec_head_from(fc, i, fuel) < fc.nodes@.len(),
    decreases fuel,
{
    if fuel > 0 {
        match spec_best_child(fc, i) {
            None => {},
            Some(c) => {
                lemma_best_child_viable(fc, i, fc.nodes@.len() as int);
                if i < c {
                    assert(spec_is_ancestor(fc.nodes@, i, i));
                    assert(spec_is_ancestor(fc.nodes@, i, c));
                    lemma_head_from_safe(fc, c, (fuel - 1) as nat);
                    lemma_ancestor_trans(fc.nodes@, i, c, spec_head_from(fc, c, (fuel - 1) as nat));
                }
            },
        }
    }
}

impl ForkChoice {
    /// Attestation weight of the subtree rooted at node `i`.
    pub fn node_weight(&self, i: usize) -> (w: u64)
        requires
            self.wf(),
            i < self.nodes@.len(),
        ensures
            w == spec_weight(*self, i as int),
    {
        let mut w: u64 = 0;
        let mut v: usize = 0;
        while v < self.votes.len()
            invariant
                self.wf(),
                i < self.nodes@.len(),
                v <= self.votes@.len(),
                w <= v,
                w == spec_weight_upto(self.nodes@, self.index_of@, self.votes@, i as int, v as int),
            decreases self.votes@.len() - v,
        {
            let supports: bool = match self.votes[v] {
                Some(vote) => match self.find_index(vote.root) {
                    Some(j) => self.is_ancestor_idx(i, j),
                    None => false,
                },
                None => false,
            };
            if supports {
                w = w + 1;
            }
            v = v + 1;
        }
        w
    }

    /// The winning viable child of node `i`, if any.
    pub fn best_child(&self, i: usize) -> (r: Option<usize>)
        requires
            self.wf(),
            i < self.nodes@.len(),
        ensures
            match r {
                Some(c) => spec_best_child(*self, i as int) == Some(c as int),
                None => spec_best_child(*self, i as int) is None,
            },
    {
        let mut best: Option<usize> = None;
        let mut best_w: u64 = 0;
        let mut j: usize = 0;
        while j < self.nodes.len()
            invariant
                self.wf(),
                i < self.nodes@.len(),
                j <= self.nodes@.len(),
                match best {
                    Some(k) => spec_best_child_upto(*self, i as int, j as int) == Some(k as int)
                        && k < self.nodes@.len() && best_w == spec_weight(*self, k as int),
                    None => spec_best_child_upto(*self, i as int, j as int) is None,
                },
            decreases self.nodes@.len() - j,
        {
            let viable: bool = match self.nodes[j].parent {
                Some(p) => p == i && !self.nodes[j].execution_status.is_invalid(),
                None => false,
            };
            if viable {
                let w = self.node_weight(j);
                match best {
                    None => {
                        best = Some(j);
                        best_w = w;
                    },
                    Some(k) => {
                        if w > best_w || (w == best_w && self.nodes[j].root > self.nodes[k].root) {
                            best = Some(j);
                            best_w = w;
                        }
                    },
                }
            }
            j = j + 1;
        }
        best
    }

    /// Select the canonical head: the greedy heaviest-subtree walk from the
    /// justified block. The result is fully determined by the structure,
    /// always lies in the justified block's subtree, and is never an
    /// invalidated block as long as the justified block itself is not
    /// invalidated.
    pub fn get_head(&self, _current_slot: u64) -> (r: Result<u64, ChainError>)
        requires
            self.wf(),
        ensures
            match r {
                Ok(root) => {
                    let h = spec_head_index(*self);
                    &&& 0 <= h < self.nodes@.len()
                    &&& root == self.nodes@[h].root
                    &&& self.spec_contains(root)
                    &&& spec_is_ancestor(
                        self.nodes@,
                        self.index_of@[self.justified_checkpoint.root] as int,
                        h,
                    )
                    &&& !(self.spec_node_of(
                        self.justified_checkpoint.root,
                    ).execution_status is Invalid) ==> !(self.nodes@[h].execution_status
                        is Invalid)
                },
                Err(_) => false,
            },
    {
        let j0 = match self.find_index(self.justified_checkpoint.root) {
            Some(i) => i,
            None => {
                // Unreachable: the callers' preconditions and the
                // structure's well-formedness rule this arm out.
                proof {
                    assert(false);
                }
                0
            },
        };
        let ghost n = self.nodes@.len() as nat;
        let mut cur = j0;
        let ghost mut fuel = n;
        loop
            invariant
                self.wf(),
                cur < self.nodes@.len(),
                j0 == self.index_of@[self.justified_checkpoint.root],
                fuel <= n,
                n == self.nodes@.len() as nat,
                fuel >= n - cur,
                spec_head_from(*self, j0 as int, n) == spec_head_from(*self, cur as int, fuel),
                spec_is_ancestor(self.nodes@, j0 as int, cur as int),
                !(self.nodes@[j0 as int].execution_status is Invalid) ==> !(
                self.nodes@[cur as int].execution_status is Invalid),
            ensures
                cur < self.nodes@.len(),
                spec_head_from(*self, j0 as int, n) == cur as int,
                spec_is_ancestor(self.nodes@, j0 as int, cur as int),
                !(self.nodes@[j0 as int].execution_status is Invalid) ==> !(
                self.nodes@[cur as int].execution_status is Invalid),
            decreases self.nodes@.len() - cur,
        {
            match self.best_child(cur) {
                None => {
                    proof {
                        assert(spec_head_from(*self, cur as int, fuel) == cur as int);
                    }
                    break ;
                },
                Some(c) => {
                    proof {
                        lemma_best_child_viable(*self, cur as int, self.nodes@.len() as int);
                        assert(spec_viable_child(self.nodes@, cur as int, c as int));
                        assert(c > cur);
                        assert(fuel >= 1);
                        assert(spec_head_from(*self, cur as int, fuel) == spec_head_from(
                            *self,
                            c as int,
                            (fuel - 1) as nat,
                        ));
                        assert(spec_is_ancestor(self.nodes@, cur as int, cur as int));
                        assert(spec_is_ancestor(self.nodes@, cur as int, c as int));
                        lemma_ancestor_trans(self.nodes@, j0 as int, cur as int, c as int);
                    }
                    cur = c;
                    proof {
                        fuel = (fuel - 1) as nat;
                    }
                },
            }
        }
        proof {
            assert(spec_head_index(*self) == cur as int);
        }
        Ok(self.nodes[cur].root)
    }
}


/// An instruction to invalidate execution payloads, derived from an
/// execution engine response.
#[derive(Clone, Copy, PartialEq, Eq, Structural, Debug)]
pub enum InvalidationOperation {
    /// Invalidate only the named block.
    InvalidateOne { block_root: u64 },
    /// Invalidate the named block (when `always_invalidate_head`) and its
    /// ancestors down to, but excluding, the block whose payload hash is
    /// `latest_valid_ancestor`.
    InvalidateMany {
        head_block_root: u64,
        always_invalidate_head: bool,
        latest_valid_ancestor: Option<u64>,
    },
}

impl InvalidationOperation {
    /// The block the operation names.
    pub open spec fn spec_block_root(self) -> u64 {
        match self {
            InvalidationOperation::InvalidateOne { block_root } => block_root,
            InvalidationOperation::InvalidateMany { head_block_root, .. } => head_block_root,
        }
    }

    /// Executable form of `spec_block_root`.
    pub fn block_root(&self) -> (r: u64)
        ensures
            r == self.spec_block_root(),
    {
        match self {
            InvalidationOperation::InvalidateOne { block_root } => *block_root,
            InvalidationOperation::InvalidateMany { head_block_root, .. } => *head_block_root,
        }
    }

    /// The payload hash below which nothing is invalidated, if any.
    pub fn latest_valid_ancestor(&self) -> (r: Option<u64>)
        ensures
            r == match *self {
                InvalidationOperation::InvalidateOne { .. } => None::<u64>,
                InvalidationOperation::InvalidateMany { latest_valid_ancestor, .. } =>
                    latest_valid_ancestor,
            },
    {
        match self {
            InvalidationOperation::InvalidateOne { .. } => None,
            InvalidationOperation::InvalidateMany { latest_valid_ancestor, .. } =>
                *latest_valid_ancestor,
        }
    }
}

/// A node the invalidation walk may mark: an unconfirmed or already
/// invalidated payload.
pub open spec fn spec_invalidatable(node: ProtoNode) -> bool {
    node.execution_status is Optimistic || node.execution_status is Invalid
}

/// The upward invalidation walk stops here: the latest valid ancestor was
/// reached, or the payload is confirmed valid or carries no payload.
pub open spec fn spec_walk_stops(nodes: Seq<ProtoNode>, i: int, lva: Option<u64>) -> bool {
    ||| (lva is Some && nodes[i].execution_status.spec_block_hash() == lva)
    ||| !spec_invalidatable(nodes[i])
}

/// Node `j` lies on the upward walk that starts at node `i` and stops at
/// the latest valid ancestor.
pub open spec fn spec_walk_hits(nodes: Seq<ProtoNode>, i: int, lva: Option<u64>, j: int) -> bool
    decreases i,
{
    if i < 0 || i >= nodes.len() {
        false
    } else if spec_walk_stops(nodes, i, lva) {
        false
    } else if j == i {
        true
    } else {
        match nodes[i].parent {
            Some(p) => if (p as int) < i {
                spec_walk_hits(nodes, p as int, lva, j)
            } else {
                false
            },
            None => false,
        }
    }
}

/// Node `j` is directly named for invalidation by the operation.
pub open spec fn spec_seeded(
    nodes: Seq<ProtoNode>,
    imap: Map<u64, usize>,
    op: InvalidationOperation,
    j: int,
) -> bool {
    match op {
        InvalidationOperation::InvalidateOne { block_root } => imap.contains_key(block_root) && j
            == imap[block_root] && spec_invalidatable(nodes[j]),
        InvalidationOperation::InvalidateMany {
            head_block_root,
            always_invalidate_head,
            latest_valid_ancestor,
        } => imap.contains_key(head_block_root) && {
            let h = imap[head_block_root] as int;
            ||| spec_walk_hits(nodes, h, latest_valid_ancestor, j)
            ||| (always_invalidate_head && j == h && spec_invalidatable(nodes[j]))
        },
    }
}

/// Node `j` is invalid once the operation has been applied: it already
/// was, it is named by the operation, or an ancestor is invalidated — so
/// no descendant of an invalid block remains valid.
pub open spec fn spec_invalid_after(
    nodes: Seq<ProtoNode>,
    imap: Map<u64, usize>,
    op: InvalidationOperation,
    j: int,
) -> bool
    decreases j,
{
    if j < 0 || j >= nodes.len() {
        false
    } else {
        ||| nodes[j].execution_status is Invalid
        ||| spec_seeded(nodes, imap, op, j)
        ||| (match nodes[j].parent {
            Some(p) => (p as int) < j && spec_invalid_after(nodes, imap, op, p as int),
            None => false,
        })
    }
}

/// The payload hash carried by a status, or zero when it has none.
pub open spec fn spec_hash_or_zero(status: ExecutionStatus) -> u64 {
    match status.spec_block_hash() {
        Some(h) => h,
        None => 0u64,
    }
}

/// A node's execution status once the operation has been applied.
pub open spec fn spec_status_after(
    nodes: Seq<ProtoNode>,
    imap: Map<u64, usize>,
    op: InvalidationOperation,
    j: int,
) -> ExecutionStatus {
    if spec_invalid_after(nodes, imap, op, j) {
        ExecutionStatus::Invalid(spec_hash_or_zero(nodes[j].execution_status))
    } else {
        nodes[j].execution_status
    }
}

/// Whether a vector of indices holds `x`.
fn contains_usize(v: &Vec<usize>, x: usize) -> (r: bool)
    ensures
        r == v@.contains(x),
{
    let mut i: usize = 0;
    while i < v.len()
        invariant
            i <= v@.len(),
            forall|k: int| 0 <= k < i ==> v@[k] != x,
        decreases v@.len() - i,
    {
        if v[i] == x {
            return true;
        }
        i = i + 1;
    }
    false
}

/// A node hit by the invalidation walk never has a larger index than the
/// walk's start.
pub proof fn lemma_walk_hits_index_le(nodes: Seq<ProtoNode>, i: int, lva: Option<u64>, j: int)
    requires
        spec_walk_hits(nodes, i, lva, j),
    ensures
        0 <= j <= i,
    decreases i,
{
    if j != i {
        match nodes[i].parent {
            Some(p) => {
                if (p as int) < i {
                    lemma_walk_hits_index_le(nodes, p as int, lva, j);
                }
            },
            None => {},
        }
    }
}

/// Node `j` lies on the upward validation walk from node `i`: the walk
/// covers the contiguous run of unconfirmed payloads.
pub open spec fn spec_valid_hits(nodes: Seq<ProtoNode>, i: int, j: int) -> bool
    decreases i,
{
    if i < 0 || i >= nodes.len() {
        false
    } else if !(nodes[i].execution_status is Optimistic) {
        false
    } else if j == i {
        true
    } else {
        match nodes[i].parent {
            Some(p) => if (p as int) < i {
                spec_valid_hits(nodes, p as int, j)
            } else {
                false
            },
            None => false,
        }
    }
}

/// A node hit by the validation walk has an unconfirmed payload.
pub proof fn lemma_valid_hits_optimistic(nodes: Seq<ProtoNode>, i: int, j: int)
    requires
        spec_valid_hits(nodes, i, j),
    ensures
        0 <= j < nodes.len(),
        nodes[j].execution_status is Optimistic,
    decreases i,
{
    if j != i {
        match nodes[i].parent {
            Some(p) => {
                if (p as int) < i {
                    lemma_valid_hits_optimistic(nodes, p as int, j);
                }
            },
            None => {},
        }
    }
}

impl ForkChoice {
    /// Collect the indices marked by the upward invalidation walk from
    /// `start`.
    fn collect_invalidation_path(&self, start: usize, lva: Option<u64>) -> (path: Vec<usize>)
        requires
            self.wf(),
            start < self.nodes@.len(),
        ensures
            forall|k: int| 0 <= k < path@.len() ==> path@[k] < self.nodes@.len(),
            forall|j: int|
                0 <= j < self.nodes@.len() ==> (path@.contains(j as usize) == spec_walk_hits(
                    self.nodes@,
                    start as int,
                    lva,
                    j,
                )),
    {
        let _len_bound = self.nodes.len();
        proof {
            assert(self.nodes@.len() <= usize::MAX);
        }
        let mut path: Vec<usize> = Vec::new();
        let mut c = start;
        loop
            invariant_except_break
                forall|j: int|
                    0 <= j < self.nodes@.len() ==> (spec_walk_hits(
                        self.nodes@,
                        start as int,
                        lva,
                        j,
                    ) == (path@.contains(j as usize) || spec_walk_hits(
                        self.nodes@,
                        c as int,
                        lva,
                        j,
                    ))),
            invariant
                self.wf(),
                c < self.nodes@.len(),
                self.nodes@.len() <= usize::MAX,
                forall|k: int| 0 <= k < path@.len() ==> path@[k] < self.nodes@.len(),
            ensures
                forall|k: int| 0 <= k < path@.len() ==> path@[k] < self.nodes@.len(),
                forall|j: int|
                    0 <= j < self.nodes@.len() ==> (spec_walk_hits(
                        self.nodes@,
                        start as int,
                        lva,
                        j,
                    ) == path@.contains(j as usize)),
            decreases c,
        {
            let node = self.nodes[c];
            let stops: bool = match lva {
                Some(h) => {
                    let node_hash = node.execution_status.block_hash();
                    (node_hash == Some(h)) || !(node.execution_status.is_optimistic()
                        || node.execution_status.is_invalid())
                },
                None => !(node.execution_status.is_optimistic()
                    || node.execution_status.is_invalid()),
            };
            if stops {
                proof {
                    assert(spec_walk_stops(self.nodes@, c as int, lva));
                    assert(forall|j: int|
                        0 <= j < self.nodes@.len() ==> !spec_walk_hits(
                            self.nodes@,
                            c as int,
                            lva,
                            j,
                        ));
                }
                break ;
            }
            let ghost old_path = path@;
            path.push(c);
            proof {
                assert(path@ == old_path.push(c));
                assert(path@[path@.len() - 1] == c);
                assert(path@.contains(c));
                assert forall|x: usize| old_path.contains(x) implies path@.contains(x) by {
                    let k = choose|k: int| 0 <= k < old_path.len() && old_path[k] == x;
                    assert(path@[k] == x);
                }
                assert forall|x: usize| path@.contains(x) implies old_path.contains(x) || x
                    == c by {
                    let k = choose|k: int| 0 <= k < path@.len() && path@[k] == x;
                    if k < old_path.len() {
                        assert(old_path[k] == x);
                    }
                }
            }
            match node.parent {
                Some(p) => {
                    proof {
                        assert forall|j: int|
                            0 <= j < self.nodes@.len() implies (spec_walk_hits(
                            self.nodes@,
                            start as int,
                            lva,
                            j,
                        ) == (path@.contains(j as usize) || spec_walk_hits(
                            self.nodes@,
                            p as int,
                            lva,
                            j,
                        ))) by {
                            assert(spec_walk_hits(self.nodes@, c as int, lva, j) == (j == c
                                || spec_walk_hits(self.nodes@, p as int, lva, j)));
                            assert((j as usize) as int == j);
                            if j == c {
                                assert(path@.contains(c));
                            } else {
                                assert(j as usize != c);
                                assert(old_path.contains(j as usize) ==> path@.contains(
                                    j as usize,
                                ));
                                assert(path@.contains(j as usize) ==> old_path.contains(
                                    j as usize,
                                ) || j as usize == c);
                                assert(path@.contains(j as usize) == old_path.contains(
                                    j as usize,
                                ));
                            }
                        }
                    }
                    c = p;
                },
                None => {
                    proof {
                        assert forall|j: int|
                            0 <= j < self.nodes@.len() implies (spec_walk_hits(
                            self.nodes@,
                            start as int,
                            lva,
                            j,
                        ) == path@.contains(j as usize)) by {
                            assert(spec_walk_hits(self.nodes@, c as int, lva, j) == (j == c));
                            assert((j as usize) as int == j);
                            if j == c {
                                assert(path@.contains(c));
                            } else {
                                assert(j as usize != c);
                                assert(old_path.contains(j as usize) ==> path@.contains(
                                    j as usize,
                                ));
                                assert(path@.contains(j as usize) ==> old_path.contains(
                                    j as usize,
                                ) || j as usize == c);
                                assert(path@.contains(j as usize) == old_path.contains(
                                    j as usize,
                                ));
                            }
                        }
                    }
                    break ;
                },
            }
        }
        path
    }

    /// Collect the indices marked by the upward validation walk from
    /// `start`.
    fn collect_validation_path(&self, start: usize) -> (path: Vec<usize>)
        requires
            self.wf(),
            start < self.nodes@.len(),
        ensures
            forall|k: int| 0 <= k < path@.len() ==> path@[k] < self.nodes@.len(),
            forall|j: int|
                0 <= j < self.nodes@.len() ==> (path@.contains(j as usize) == spec_valid_hits(
                    self.nodes@,
                    start as int,
                    j,
                )),
    {
        let _len_bound = self.nodes.len();
        proof {
            assert(self.nodes@.len() <= usize::MAX);
        }
        let mut path: Vec<usize> = Vec::new();
        let mut c = start;
        loop
            invariant_except_break
                forall|j: int|
                    0 <= j < self.nodes@.len() ==> (spec_valid_hits(
                        self.nodes@,
                        start as int,
                        j,
                    ) == (path@.contains(j as usize) || spec_valid_hits(
                        self.nodes@,
                        c as int,
                        j,
                    ))),
            invariant
                self.wf(),
                c < self.nodes@.len(),
                self.nodes@.len() <= usize::MAX,
                forall|k: int| 0 <= k < path@.len() ==> path@[k] < self.nodes@.len(),
            ensures
                forall|k: int| 0 <= k < path@.len() ==> path@[k] < self.nodes@.len(),
                forall|j: int|
                    0 <= j < self.nodes@.len() ==> (path@.contains(j as usize) == spec_valid_hits(
                        self.nodes@,
                        start as int,
                        j,
                    )),
            decreases c,
        {
            let node = self.nodes[c];
            if !node.execution_status.is_optimistic() {
                proof {
                    assert(forall|j: int|
                        0 <= j < self.nodes@.len() ==> !spec_valid_hits(
                            self.nodes@,
                            c as int,
                            j,
                        ));
                }
                break ;
            }
            let ghost old_path = path@;
            path.push(c);
            proof {
                assert(path@ == old_path.push(c));
                assert(path@[path@.len() - 1] == c);
                assert(path@.contains(c));
                assert forall|x: usize| old_path.contains(x) implies path@.contains(x) by {
                    let k = choose|k: int| 0 <= k < old_path.len() && old_path[k] == x;
                    assert(path@[k] == x);
                }
                assert forall|x: usize| path@.contains(x) implies old_path.contains(x) || x
                    == c by {
                    let k = choose|k: int| 0 <= k < path@.len() && path@[k] == x;
                    if k < old_path.len() {
                        assert(old_path[k] == x);
                    }
                }
            }
            match node.parent {
                Some(p) => {
                    proof {
                        assert forall|j: int|
                            0 <= j < self.nodes@.len() implies (spec_valid_hits(
                            self.nodes@,
                            start as int,
                            j,
                        ) == (path@.contains(j as usize) || spec_valid_hits(
                            self.nodes@,
                            p as int,
                            j,
                        ))) by {
                            assert(spec_valid_hits(self.nodes@, c as int, j) == (j == c
                                || spec_valid_hits(self.nodes@, p as int, j)));
                            assert((j as usize) as int == j);
                            if j == c {
                                assert(path@.contains(c));
                            } else {
                                assert(j as usize != c);
                                assert(old_path.contains(j as usize) ==> path@.contains(
                                    j as usize,
                                ));
                                assert(path@.contains(j as usize) ==> old_path.contains(
                                    j as usize,
                                ) || j as usize == c);
                                assert(path@.contains(j as usize) == old_path.contains(
                                    j as usize,
                                ));
                            }
                        }
                    }
                    c = p;
                },
                None => {
                    proof {
                        assert forall|j: int|
                            0 <= j < self.nodes@.len() implies (path@.contains(j as usize)
                            == spec_valid_hits(self.nodes@, start as int, j)) by {
                            assert(spec_valid_hits(self.nodes@, c as int, j) == (j == c));
                            assert((j as usize) as int == j);
                            if j == c {
                                assert(path@.contains(c));
                            } else {
                                assert(j as usize != c);
                                assert(old_path.contains(j as usize) ==> path@.contains(
                                    j as usize,
                                ));
                                assert(path@.contains(j as usize) ==> old_path.contains(
                                    j as usize,
                                ) || j as usize == c);
                                assert(path@.contains(j as usize) == old_path.contains(
                                    j as usize,
                                ));
                            }
                        }
                    }
                    break ;
                },
            }
        }
        path
    }

    /// Apply an invalidation operation: mark the blocks the operation
    /// names, then sweep every descendant, so that afterwards a node is
    /// invalid exactly when it already was, is named, or descends from an
    /// invalidated node. Nothing else about the structure changes.
    pub fn on_invalid_execution_payload(&mut self, op: &InvalidationOperation) -> (r: Result<
        (),
        ChainError,
    >)
        requires
            old(self).wf(),
        ensures
            final(self).wf(),
            final(self).index_of@ == old(self).index_of@,
            final(self).votes@ == old(self).votes@,
            final(self).justified_checkpoint == old(self).justified_checkpoint,
            final(self).finalized_checkpoint == old(self).finalized_checkpoint,
            final(self).nodes@.len() == old(self).nodes@.len(),
            match r {
                Ok(()) => {
                    &&& old(self).spec_contains(op.spec_block_root())
                    &&& forall|j: int|
                        0 <= j < old(self).nodes@.len() ==> final(self).nodes@[j]
                            == (ProtoNode {
                            execution_status: spec_status_after(
                                old(self).nodes@,
                                old(self).index_of@,
                                *op,
                                j,
                            ),
                            ..old(self).nodes@[j]
                        })
                },
                Err(e) => {
                    &&& e == (ChainError::MissingBeaconBlock {
                        block_root: op.spec_block_root(),
                    })
                    &&& !old(self).spec_contains(op.spec_block_root())
                    &&& final(self).nodes@ == old(self).nodes@
                },
            },
    {
        let root = op.block_root();
        let start = match self.find_index(root) {
            Some(i) => i,
            None => {
                return Err(ChainError::MissingBeaconBlock { block_root: root });
            },
        };

        // Phase one: the indices named by the operation.
        let _len_bound = self.nodes.len();
        proof {
            assert(self.nodes@.len() <= usize::MAX);
        }
        let mut seeds: Vec<usize>;
        match op {
            InvalidationOperation::InvalidateOne { .. } => {
                seeds = Vec::new();
                let st = self.nodes[start].execution_status;
                if st.is_optimistic() || st.is_invalid() {
                    seeds.push(start);
                    proof {
                        assert(seeds@[0] == start);
                        assert(seeds@.contains(start));
                        assert forall|j: int|
                            0 <= j < self.nodes@.len() implies (seeds@.contains(j as usize)
                            == spec_seeded(self.nodes@, self.index_of@, *op, j)) by {
                            if seeds@.contains(j as usize) {
                                let k = choose|k: int|
                                    0 <= k < seeds@.len() && seeds@[k] == j as usize;
                                assert(seeds@[k] == start);
                            }
                        }
                    }
                } else {
                    proof {
                        assert forall|j: int|
                            0 <= j < self.nodes@.len() implies (seeds@.contains(j as usize)
                            == spec_seeded(self.nodes@, self.index_of@, *op, j)) by {
                            assert(seeds@.len() == 0);
                            assert(!seeds@.contains(j as usize));
                        }
                    }
                }
            },
            InvalidationOperation::InvalidateMany {
                always_invalidate_head,
                latest_valid_ancestor,
                ..
            } => {
                seeds = self.collect_invalidation_path(start, *latest_valid_ancestor);
                let ghost walk_only = seeds@;
                if *always_invalidate_head {
                    let st = self.nodes[start].execution_status;
                    if st.is_optimistic() || st.is_invalid() {
                        seeds.push(start);
                        proof {
                            assert(seeds@ == walk_only.push(start));
                            assert(seeds@[seeds@.len() - 1] == start);
                            assert(seeds@.contains(start));
                            assert forall|x: usize|
                                walk_only.contains(x) implies seeds@.contains(x) by {
                                let k = choose|k: int|
                                    0 <= k < walk_only.len() && walk_only[k] == x;
                                assert(seeds@[k] == x);
                            }
                            assert forall|x: usize|
                                seeds@.contains(x) implies walk_only.contains(x) || x
                                == start by {
                                let k = choose|k: int|
                                    0 <= k < seeds@.len() && seeds@[k] == x;
                                if k < walk_only.len() {
                                    assert(walk_only[k] == x);
                                }
                            }
                            assert forall|j: int|
                                0 <= j < self.nodes@.len() implies (seeds@.contains(
                                j as usize,
                            ) == spec_seeded(self.nodes@, self.index_of@, *op, j)) by {
                                assert(walk_only.contains(j as usize) == spec_walk_hits(
                                    self.nodes@,
                                    start as int,
                                    *latest_valid_ancestor,
                                    j,
                                ));
                            }
                        }
                    } else {
                        proof {
                            assert forall|j: int|
                                0 <= j < self.nodes@.len() implies (seeds@.contains(
                                j as usize,
                            ) == spec_seeded(self.nodes@, self.index_of@, *op, j)) by {}
                        }
                    }
                } else {
                    proof {
                        assert forall|j: int|
                            0 <= j < self.nodes@.len() implies (seeds@.contains(j as usize)
                            == spec_seeded(self.nodes@, self.index_of@, *op, j)) by {}
                    }
                }
            },
        }

        // Phase two: sweep ascending, so every descendant of an
        // invalidated block is marked too.
        let ghost nodes0 = self.nodes@;
        let ghost imap0 = self.index_of@;
        let mut j: usize = 0;
        while j < self.nodes.len()
            invariant
                old(self).wf(),
                nodes0 == old(self).nodes@,
                imap0 == old(self).index_of@,
                self.index_of@ == old(self).index_of@,
                self.votes@ == old(self).votes@,
                self.justified_checkpoint == old(self).justified_checkpoint,
                self.finalized_checkpoint == old(self).finalized_checkpoint,
                self.nodes@.len() == nodes0.len(),
                self.nodes@.len() <= usize::MAX,
                j <= self.nodes@.len(),
                forall|k: int|
                    0 <= k < self.nodes@.len() ==> (seeds@.contains(k as usize) == spec_seeded(
                        nodes0,
                        imap0,
                        *op,
                        k,
                    )),
                forall|k: int| j <= k < self.nodes@.len() ==> self.nodes@[k] == nodes0[k],
                forall|k: int|
                    0 <= k < j ==> self.nodes@[k] == (ProtoNode {
                        execution_status: spec_status_after(nodes0, imap0, *op, k),
                        ..nodes0[k]
                    }),
            decreases self.nodes@.len() - j,
        {
            let node = self.nodes[j];
            let seeded = contains_usize(&seeds, j);
            let parent_invalid: bool = match node.parent {
                Some(p) => p < j && self.nodes[p].execution_status.is_invalid(),
                None => false,
            };
            let was_invalid = node.execution_status.is_invalid();
            if was_invalid || seeded || parent_invalid {
                let h = match node.execution_status.block_hash() {
                    Some(h) => h,
                    None => 0,
                };
                self.nodes.set(
                    j,
                    ProtoNode { execution_status: ExecutionStatus::Invalid(h), ..node },
                );
            }
            j = j + 1;
        }
        proof {
            assert forall|i: int| #![trigger self.nodes@[i]]
                0 <= i < self.nodes@.len() implies match self.nodes@[i].parent {
                Some(p) => self.nodes@[p as int].execution_status is Invalid
                    ==> self.nodes@[i].execution_status is Invalid,
                None => true,
            } by {
                match self.nodes@[i].parent {
                    Some(p) => {
                        assert(nodes0[i].parent == Some(p));
                    },
                    None => {},
                }
            }
            assert forall|i: int|
                0 <= i < self.nodes@.len() implies #[trigger] self.index_of@.contains_key(
                self.nodes@[i].root,
            ) && self.index_of@[self.nodes@[i].root] == i by {
                assert(self.nodes@[i].root == nodes0[i].root);
                assert(old(self).index_of@.contains_key(nodes0[i].root));
            }
            assert forall|r: u64| #[trigger]
                self.index_of@.contains_key(r) implies self.index_of@[r] < self.nodes@.len()
                && self.nodes@[self.index_of@[r] as int].root == r by {
                assert(old(self).index_of@.contains_key(r));
            }
        }
        Ok(())
    }

    /// The execution engine confirmed the payload of the block at `root`:
    /// mark it and its unconfirmed ancestors valid.
    ///
    /// Fails, changing nothing, when the root is untracked or the block
    /// was already invalidated — a confirmation for an invalidated payload
    /// is a consistency violation, not a state change.
    pub fn on_valid_execution_payload(&mut self, root: u64) -> (r: Result<(), ChainError>)
        requires
            old(self).wf(),
        ensures
            final(self).wf(),
            final(self).index_of@ == old(self).index_of@,
            final(self).votes@ == old(self).votes@,
            final(self).justified_checkpoint == old(self).justified_checkpoint,
            final(self).finalized_checkpoint == old(self).finalized_checkpoint,
            final(self).nodes@.len() == old(self).nodes@.len(),
            match r {
                Ok(()) => {
                    &&& old(self).spec_contains(root)
                    &&& forall|j: int|
                        0 <= j < old(self).nodes@.len() ==> final(self).nodes@[j]
                            == (ProtoNode {
                            execution_status: if spec_valid_hits(
                                old(self).nodes@,
                                old(self).index_of@[root] as int,
                                j,
                            ) {
                                ExecutionStatus::Valid(
                                    spec_hash_or_zero(old(self).nodes@[j].execution_status),
                                )
                            } else {
                                old(self).nodes@[j].execution_status
                            },
                            ..old(self).nodes@[j]
                        })
                },
                Err(e) => {
                    &&& final(self).nodes@ == old(self).nodes@
                    &&& (e == (ChainError::MissingBeaconBlock { block_root: root })
                        && !old(self).spec_contains(root)) || (e
                        == (ChainError::ValidatingInvalidBlock { block_root: root }) && old(
                        self,
                    ).spec_contains(root) && old(self).spec_node_of(
                        root,
                    ).execution_status is Invalid)
                },
            },
    {
        let start = match self.find_index(root) {
            Some(i) => i,
            None => {
                return Err(ChainError::MissingBeaconBlock { block_root: root });
            },
        };
        if self.nodes[start].execution_status.is_invalid() {
            return Err(ChainError::ValidatingInvalidBlock { block_root: root });
        }
        let path = self.collect_validation_path(start);
        let _len_bound = self.nodes.len();
        proof {
            assert(self.nodes@.len() <= usize::MAX);
        }
        let ghost nodes0 = self.nodes@;
        let mut j: usize = 0;
        while j < self.nodes.len()
            invariant
                old(self).wf(),
                nodes0 == old(self).nodes@,
                start < nodes0.len(),
                self.index_of@ == old(self).index_of@,
                self.votes@ == old(self).votes@,
                self.justified_checkpoint == old(self).justified_checkpoint,
                self.finalized_checkpoint == old(self).finalized_checkpoint,
                self.nodes@.len() == nodes0.len(),
                self.nodes@.len() <= usize::MAX,
                j <= self.nodes@.len(),
                forall|k: int|
                    0 <= k < self.nodes@.len() ==> (path@.contains(k as usize) == spec_valid_hits(
                        nodes0,
                        start as int,
                        k,
                    )),
                forall|k: int| j <= k < self.nodes@.len() ==> self.nodes@[k] == nodes0[k],
                forall|k: int|
                    0 <= k < j ==> self.nodes@[k] == (ProtoNode {
                        execution_status: if spec_valid_hits(nodes0, start as int, k) {
                            ExecutionStatus::Valid(spec_hash_or_zero(nodes0[k].execution_status))
                        } else {
                            nodes0[k].execution_status
                        },
                        ..nodes0[k]
                    }),
            decreases self.nodes@.len() - j,
        {
            let node = self.nodes[j];
            if contains_usize(&path, j) {
                let h = match node.execution_status.block_hash() {
                    Some(h) => h,
                    None => 0,
                };
                self.nodes.set(
                    j,
                    ProtoNode { execution_status: ExecutionStatus::Valid(h), ..node },
                );
            }
            j = j + 1;
        }
        proof {
            assert forall|i: int| #![trigger self.nodes@[i]]
                0 <= i < self.nodes@.len() implies match self.nodes@[i].parent {
                Some(p) => self.nodes@[p as int].execution_status is Invalid
                    ==> self.nodes@[i].execution_status is Invalid,
                None => true,
            } by {
                match self.nodes@[i].parent {
                    Some(p) => {
                        assert(nodes0[i].parent == Some(p));
                        if spec_valid_hits(nodes0, start as int, p as int) {
                            lemma_valid_hits_optimistic(nodes0, start as int, p as int);
                        }
                        if spec_valid_hits(nodes0, start as int, i) {
                            lemma_valid_hits_optimistic(nodes0, start as int, i);
                        }
                    },
                    None => {},
                }
            }
            assert forall|i: int|
                0 <= i < self.nodes@.len() implies #[trigger] self.index_of@.contains_key(
                self.nodes@[i].root,
            ) && self.index_of@[self.nodes@[i].root] == i by {
                assert(self.nodes@[i].root == nodes0[i].root);
                assert(old(self).index_of@.contains_key(nodes0[i].root));
            }
            assert forall|r: u64| #[trigger]
                self.index_of@.contains_key(r) implies self.index_of@[r] < self.nodes@.len()
                && self.nodes@[self.index_of@[r] as int].root == r by {
                assert(old(self).index_of@.contains_key(r));
            }
        }
        Ok(())
    }
}

/// A node hit by the validation walk never has a larger index than the
/// walk's start.
pub proof fn lemma_valid_hits_index_le(nodes: Seq<ProtoNode>, i: int, j: int)
    requires
        spec_valid_hits(nodes, i, j),
    ensures
        0 <= j <= i,
    decreases i,
{
    if j != i {
        match nodes[i].parent {
            Some(p) => {
                if (p as int) < i {
                    lemma_valid_hits_index_le(nodes, p as int, j);
                }
            },
            None => {},
        }
    }
}

/// Copy a vector of nodes; a copy with a known contract.
fn copy_nodes(v: &Vec<ProtoNode>) -> (r: Vec<ProtoNode>)
    ensures
        r@ == v@,
{
    let mut r: Vec<ProtoNode> = Vec::new();
    let mut i: usize = 0;
    while i < v.len()
        invariant
            i <= v@.len(),
            r@ == v@.subrange(0, i as int),
        decreases v@.len() - i,
    {
        r.push(v[i]);
        i = i + 1;
    }
    proof {
        assert(v@.subrange(0, v@.len() as int) == v@);
    }
    r
}

/// Copy a vector of vote slots; a copy with a known contract.
fn copy_votes(v: &Vec<Option<Vote>>) -> (r: Vec<Option<Vote>>)
    ensures
        r@ == v@,
{
    let mut r: Vec<Option<Vote>> = Vec::new();
    let mut i: usize = 0;
    while i < v.len()
        invariant
            i <= v@.len(),
            r@ == v@.subrange(0, i as int),
        decreases v@.len() - i,
    {
        r.push(v[i]);
        i = i + 1;
    }
    proof {
        assert(v@.subrange(0, v@.len() as int) == v@);
    }
    r
}

impl ForkChoice {
    /// Copy with a known contract; the persisted form of the structure is
    /// such a copy.
    pub fn duplicate(&self) -> (fc: ForkChoice)
        ensures
            fc.nodes@ == self.nodes@,
            fc.index_of@ == self.index_of@,
            fc.votes@ == self.votes@,
            fc.justified_checkpoint == self.justified_checkpoint,
            fc.finalized_checkpoint == self.finalized_checkpoint,
            self.wf() ==> fc.wf(),
    {
        ForkChoice {
            nodes: copy_nodes(&self.nodes),
            index_of: self.index_of.clone(),
            votes: copy_votes(&self.votes),
            justified_checkpoint: self.justified_checkpoint,
            finalized_checkpoint: self.finalized_checkpoint,
        }
    }

    /// Drop every block that does not descend from the finalized block.
    ///
    /// When the justified block does not descend from the finalized block
    /// the structure is left untouched: pruning would otherwise orphan the
    /// starting point of head selection.
    pub fn prune(&mut self) -> (r: Result<(), ChainError>)
        requires
            old(self).wf(),
        ensures
            r is Ok,
            final(self).wf(),
            final(self).votes@ == old(self).votes@,
            final(self).justified_checkpoint == old(self).justified_checkpoint,
            final(self).finalized_checkpoint == old(self).finalized_checkpoint,
            spec_is_ancestor(
                old(self).nodes@,
                old(self).index_of@[old(self).finalized_checkpoint.root] as int,
                old(self).index_of@[old(self).justified_checkpoint.root] as int,
            ) ==> forall|rt: u64| #![trigger final(self).spec_contains(rt)]
                (final(self).spec_contains(rt) == (old(self).spec_contains(rt)
                    && spec_is_ancestor(
                    old(self).nodes@,
                    old(self).index_of@[old(self).finalized_checkpoint.root] as int,
                    old(self).index_of@[rt] as int,
                ))) && (final(self).spec_contains(rt) ==> {
                    let new_node = final(self).spec_node_of(rt);
                    let old_node = old(self).spec_node_of(rt);
                    new_node.root == old_node.root && new_node.slot == old_node.slot
                        && new_node.state_root == old_node.state_root
                        && new_node.justified_checkpoint == old_node.justified_checkpoint
                        && new_node.finalized_checkpoint == old_node.finalized_checkpoint
                        && new_node.execution_status == old_node.execution_status
                }),
            !spec_is_ancestor(
                old(self).nodes@,
                old(self).index_of@[old(self).finalized_checkpoint.root] as int,
                old(self).index_of@[old(self).justified_checkpoint.root] as int,
            ) ==> final(self).nodes@ == old(self).nodes@ && final(self).index_of@ == old(
                self,
            ).index_of@,
    {
        let f = match self.find_index(self.finalized_checkpoint.root) {
            Some(i) => i,
            None => {
                // Unreachable: the callers' preconditions and the
                // structure's well-formedness rule this arm out.
                proof {
                    assert(false);
                }
                0
            },
        };
        let j = match self.find_index(self.justified_checkpoint.root) {
            Some(i) => i,
            None => {
                // Unreachable: the callers' preconditions and the
                // structure's well-formedness rule this arm out.
                proof {
                    assert(false);
                }
                0
            },
        };
        if !self.is_ancestor_idx(f, j) {
            return Ok(());
        }

        let ghost nodes0 = self.nodes@;
        let ghost imap0 = self.index_of@;
        let n = self.nodes.len();
        let mut new_nodes: Vec<ProtoNode> = Vec::new();
        let mut new_index: HashMap<u64, usize> = HashMap::new();
        let mut remap: Vec<Option<usize>> = Vec::new();
        let mut i: usize = 0;
        while i < n
            invariant
                old(self).wf(),
                *self == *old(self),
                nodes0 == old(self).nodes@,
                imap0 == old(self).index_of@,
                n == nodes0.len(),
                f < n,
                i <= n,
                remap@.len() == i,
                forall|k: int|
                    0 <= k < i ==> ((#[trigger] remap@[k]) is Some == spec_is_ancestor(
                        nodes0,
                        f as int,
                        k,
                    )),
                forall|k: int|
                    0 <= k < i && remap@[k] is Some ==> (#[trigger] remap@[k])->0
                        < new_nodes@.len(),
                forall|k: int|
                    0 <= k < i && remap@[k] is Some ==> {
                        let nk = (#[trigger] remap@[k])->0 as int;
                        let nn = new_nodes@[nk];
                        let on = nodes0[k];
                        nn.root == on.root && nn.slot == on.slot && nn.state_root
                            == on.state_root && nn.justified_checkpoint
                            == on.justified_checkpoint && nn.finalized_checkpoint
                            == on.finalized_checkpoint && nn.execution_status
                            == on.execution_status
                    },
                new_nodes@.len() <= i,
                forall|m: int|
                    0 <= m < new_nodes@.len() ==> match #[trigger] new_nodes@[m].parent {
                        Some(p) => p < m,
                        None => true,
                    },
                forall|m: int|
                    0 <= m < new_nodes@.len() ==> match #[trigger] new_nodes@[m].parent {
                        Some(p) => new_nodes@[p as int].execution_status is Invalid
                            ==> new_nodes@[m].execution_status is Invalid,
                        None => true,
                    },
                forall|m: int|
                    0 <= m < new_nodes@.len() ==> #[trigger] new_index@.contains_key(
                        new_nodes@[m].root,
                    ) && new_index@[new_nodes@[m].root] == m,
                forall|rt: u64| #[trigger]
                    new_index@.contains_key(rt) ==> new_index@[rt] < new_nodes@.len()
                        && new_nodes@[new_index@[rt] as int].root == rt,
                forall|rt: u64| #[trigger]
                    new_index@.contains_key(rt) ==> imap0.contains_key(rt) && imap0[rt] < i
                        && spec_is_ancestor(nodes0, f as int, imap0[rt] as int) && remap@[imap0[
                        rt] as int] == Some(new_index@[rt]),
                forall|k: int|
                    0 <= k < i && remap@[k] is Some ==> new_index@.contains_key(nodes0[k].root)
                        && Some(new_index@[nodes0[k].root]) == remap@[k],
                i > f ==> remap@[f as int] is Some,
            decreases n - i,
        {
            let node = self.nodes[i];
            let mut keep: bool = false;
            let mut new_parent: Option<usize> = None;
            if i == f {
                keep = true;
            } else {
                match node.parent {
                    Some(p) => {
                        if p < i {
                            match remap[p] {
                                Some(np) => {
                                    keep = true;
                                    new_parent = Some(np);
                                },
                                None => {},
                            }
                        }
                    },
                    None => {},
                }
            }
            proof {
                if i != f {
                    assert(spec_is_ancestor(nodes0, f as int, i as int) == (
                    match nodes0[i as int].parent {
                        Some(p) => (p as int) < i && spec_is_ancestor(nodes0, f as int, p as int),
                        None => false,
                    }));
                }
            }
            if keep {
                let new_idx = new_nodes.len();
                let new_node = ProtoNode {
                    root: node.root,
                    parent: if i == f {
                        None
                    } else {
                        new_parent
                    },
                    slot: node.slot,
                    state_root: node.state_root,
                    justified_checkpoint: node.justified_checkpoint,
                    finalized_checkpoint: node.finalized_checkpoint,
                    execution_status: node.execution_status,
                };
                proof {
                    if i != f {
                        let p = nodes0[i as int].parent->0;
                        assert(remap@[p as int] is Some);
                        if nodes0[p as int].execution_status is Invalid {
                            assert(nodes0[i as int].execution_status is Invalid);
                        }
                    }
                    assert(!new_index@.contains_key(node.root)) by {
                        if new_index@.contains_key(node.root) {
                            assert(imap0[node.root] < i);
                            assert(nodes0[imap0[node.root] as int].root == node.root);
                            assert(imap0[nodes0[i as int].root] == i);
                        }
                    }
                }
                new_nodes.push(new_node);
                new_index.insert(node.root, new_idx);
                remap.push(Some(new_idx));
            } else {
                remap.push(None);
            }
            i = i + 1;
        }
        proof {
            assert(remap@[f as int] is Some) by {
                assert(spec_is_ancestor(nodes0, f as int, f as int));
            }
        }
        self.nodes = new_nodes;
        self.index_of = new_index;
        proof {
            assert(self.spec_contains(self.finalized_checkpoint.root)) by {
                assert(remap@[imap0[self.finalized_checkpoint.root] as int] is Some);
                assert(self.nodes@[remap@[f as int]->0 as int].root == nodes0[f as int].root);
            }
            assert(self.spec_contains(self.justified_checkpoint.root)) by {
                let ji = imap0[self.justified_checkpoint.root] as int;
                assert(spec_is_ancestor(nodes0, f as int, ji));
                assert(remap@[ji] is Some);
                assert(self.nodes@[remap@[ji]->0 as int].root == nodes0[ji].root);
            }
            assert(self.nodes@.len() >= 1);
            assert forall|rt: u64| #![trigger self.spec_contains(rt)]
                self.spec_contains(rt) == (old(self).spec_contains(rt) && spec_is_ancestor(
                nodes0,
                f as int,
                imap0[rt] as int,
            )) by {
                if old(self).spec_contains(rt) && spec_is_ancestor(
                    nodes0,
                    f as int,
                    imap0[rt] as int,
                ) {
                    let k = imap0[rt] as int;
                    assert(remap@[k] is Some);
                    assert(self.index_of@.contains_key(nodes0[k].root));
                }
            }
        }
        Ok(())
    }
}

} // verus!
