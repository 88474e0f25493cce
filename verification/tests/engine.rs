use beacon_chain::block::{Attestation, AttestationData, BlockSummary};
use beacon_chain::chain::{BeaconChain, EventKind, StateSkipConfig, WhenSlotSkipped};
use beacon_chain::errors::{BlockError, ChainError};
use beacon_chain::fork_choice::InvalidationOperation;
use beacon_chain::primitives::{Checkpoint, ExecutionStatus};
use beacon_chain::state::{proposer_for, ChainConfig, ChainSpec, StateSummary};

const VALIDATORS: u64 = 4;
const GENESIS_ROOT: u64 = 1000;

fn pre_merge_spec() -> ChainSpec {
    ChainSpec { seconds_per_slot: 12, altair_fork_epoch: None, bellatrix_fork_epoch: None }
}

fn merge_spec() -> ChainSpec {
    ChainSpec { seconds_per_slot: 12, altair_fork_epoch: Some(0), bellatrix_fork_epoch: Some(0) }
}

fn genesis_block(spec: &ChainSpec) -> BlockSummary {
    BlockSummary {
        root: GENESIS_ROOT,
        slot: 0,
        parent_root: 0,
        proposer_index: 0,
        state_root: GENESIS_ROOT + 1,
        randao: 7,
        fork_version: spec.fork_version_at_epoch(0),
        payload_block_hash: match spec.bellatrix_fork_epoch {
            Some(0) => Some(GENESIS_ROOT + 2),
            _ => None,
        },
        graffiti: 0,
        attestations: Vec::new(),
    }
}

fn new_chain(spec: ChainSpec) -> BeaconChain {
    BeaconChain::new_from_genesis(spec, ChainConfig::default(), VALIDATORS, 0, 42, genesis_block(&spec))
}

/// Advance a replica of the chain state to `slot` so a valid block can be
/// crafted for it.
fn advance_replica(state: &mut StateSummary, spec: &ChainSpec, slot: u64) {
    while state.slot < slot {
        state.advance_slot(spec, true);
    }
}

/// Craft a valid block at `slot` on top of the replica state, apply it to
/// the replica, and return it.
fn craft_block(
    state: &mut StateSummary,
    spec: &ChainSpec,
    slot: u64,
    root: u64,
    attestations: Vec<Attestation>,
) -> BlockSummary {
    advance_replica(state, spec, slot);
    let parent_root = state.latest_block_root;
    let proposer = proposer_for(state.proposer_decision_root(), slot, state.validator_count);
    let block = BlockSummary {
        root,
        slot,
        parent_root,
        proposer_index: proposer,
        state_root: root * 2 + 1,
        randao: root,
        fork_version: state.fork_version,
        payload_block_hash: match spec.bellatrix_fork_epoch {
            Some(0) => Some(root + 500_000),
            _ => None,
        },
        graffiti: 0,
        attestations,
    };
    state.apply_block(&block, spec).expect("crafted block must apply");
    block
}

fn full_attestation(slot: u64, target_epoch: u64, vote_root: u64, source: Checkpoint) -> Attestation {
    Attestation {
        data: AttestationData {
            slot,
            index: 0,
            beacon_block_root: vote_root,
            source,
            target: Checkpoint { epoch: target_epoch, root: vote_root },
        },
        attesting_indices: vec![0, 1, 2, 3],
    }
}

#[test]
fn genesis_head_and_single_tip() {
    // Genesis imported at slot 0 with no attestations: the head is the
    // genesis root, both checkpoints point at genesis, one tip is known.
    let mut chain = new_chain(pre_merge_spec());
    assert_eq!(chain.head_beacon_block_root(), GENESIS_ROOT);
    let info = chain.head_info();
    assert_eq!(info.slot, 0);
    assert_eq!(info.block_root, GENESIS_ROOT);
    assert_eq!(info.finalized_checkpoint, Checkpoint { epoch: 0, root: GENESIS_ROOT });
    assert_eq!(info.current_justified_checkpoint, Checkpoint { epoch: 0, root: GENESIS_ROOT });
    let heads = chain.heads();
    assert_eq!(heads.len(), 1);
    assert_eq!(heads[0], (GENESIS_ROOT, 0));
    // Head selection is a no-op at genesis.
    chain.fork_choice_at_slot(0).expect("fork choice at genesis");
    assert_eq!(chain.head_beacon_block_root(), GENESIS_ROOT);
}

#[test]
fn import_already_known_block_changes_nothing() {
    let spec = pre_merge_spec();
    let mut chain = new_chain(spec);
    let mut replica = chain.head_beacon_state();
    let block = craft_block(&mut replica, &spec, 1, 2000, Vec::new());
    chain.set_slot(1);
    chain.process_block(block.clone()).expect("first import");

    let heads_before = chain.heads();
    let head_before = chain.head_beacon_block_root();
    let nodes_before = chain.fork_choice.nodes.len();
    let block_before = chain.get_block(2000).expect("stored");

    let err = chain.process_block(block).expect_err("duplicate import must be rejected");
    assert_eq!(err, BlockError::BlockIsAlreadyKnown);
    assert_eq!(chain.heads(), heads_before);
    assert_eq!(chain.head_beacon_block_root(), head_before);
    assert_eq!(chain.fork_choice.nodes.len(), nodes_before);
    assert_eq!(chain.get_block(2000).expect("still stored"), block_before);
}

#[test]
fn straight_chain_tracks_two_epoch_finality_delay() {
    // Blocks for slots 1..=32 in a straight chain, each attesting to the
    // preceding block with the full registry.
    let spec = pre_merge_spec();
    let mut chain = new_chain(spec);
    let mut replica = chain.head_beacon_state();
    for slot in 1..=32u64 {
        let parent = replica.latest_block_root;
        let source = replica.current_justified;
        let target_epoch = slot / 8;
        let att = full_attestation(slot - 1, target_epoch, parent, source);
        let block = craft_block(&mut replica, &spec, slot, 2000 + slot, vec![att]);
        chain.set_slot(slot);
        chain.process_block(block).expect("import straight chain");
    }
    chain.set_slot(32);
    chain.fork_choice_at_slot(32).expect("head selection");
    let info = chain.head_info();
    assert_eq!(info.slot, 32);
    // Head epoch is 4: justification trails by one epoch, finality by two.
    assert_eq!(info.current_justified_checkpoint.epoch, 3);
    assert_eq!(info.finalized_checkpoint.epoch, 2);
    assert_eq!(chain.canonical_head.beacon_state.previous_justified.epoch, 2);
    // The justified root is the boundary block of epoch 3 (slot 24).
    assert_eq!(info.current_justified_checkpoint.root, 2000 + 24);
    assert_eq!(info.finalized_checkpoint.root, 2000 + 16);
}

#[test]
fn reorg_depth_matches_common_ancestor_distance() {
    let spec = pre_merge_spec();
    let mut chain = new_chain(spec);
    let mut replica = chain.head_beacon_state();

    // Straight chain to slot 4 without votes.
    for slot in 1..=4u64 {
        let block = craft_block(&mut replica, &spec, slot, 3000 + slot, Vec::new());
        chain.set_slot(slot);
        chain.process_block(block).expect("import base chain");
    }
    chain.set_slot(4);
    chain.fork_choice_at_slot(4).expect("initial head selection");
    assert_eq!(chain.head_beacon_block_root(), 3000 + 4);

    // A fork from the block at slot 2, gathering every vote.
    let fork_base = chain
        .get_state(chain.get_block(3000 + 2).unwrap().state_root)
        .expect("fork point state");
    let mut fork_replica = fork_base;
    let fork3 = craft_block(&mut fork_replica, &spec, 3, 4003, Vec::new());
    let vote_for_fork3 = full_attestation(3, 0, 4003, fork_replica.current_justified);
    let fork4 = craft_block(&mut fork_replica, &spec, 4, 4004, vec![vote_for_fork3]);
    let fork5 = craft_block(&mut fork_replica, &spec, 5, 4005, Vec::new());
    chain.set_slot(5);
    chain.process_block(fork3).expect("import fork block");
    chain.process_block(fork4).expect("import fork block");
    chain.process_block(fork5).expect("import fork block");

    chain.fork_choice_at_slot(5).expect("re-org head selection");
    assert_eq!(chain.head_beacon_block_root(), 4005);

    // The chains share the block at slot 2; the old head sat at slot 4,
    // so the re-org depth is 4 - 2 = 2.
    let reorg = chain
        .events
        .iter()
        .find_map(|e| match e {
            EventKind::ChainReorg { depth, old_head_block, new_head_block, .. } => {
                Some((*depth, *old_head_block, *new_head_block))
            }
            _ => None,
        })
        .expect("a re-org event must have been emitted");
    assert_eq!(reorg, (2, 3000 + 4, 4005));
}

#[test]
fn segment_counts_imports_before_first_failure() {
    // Three valid blocks, then an invalid one (wrong proposer), then a
    // structurally linked successor.
    let spec = pre_merge_spec();
    let mut chain = new_chain(spec);
    let mut replica = chain.head_beacon_state();
    let b1 = craft_block(&mut replica, &spec, 1, 5001, Vec::new());
    let b2 = craft_block(&mut replica, &spec, 2, 5002, Vec::new());
    let b3 = craft_block(&mut replica, &spec, 3, 5003, Vec::new());
    // Craft a valid block at slot 4, then corrupt its proposer.
    let mut b4 = {
        let mut probe = replica.clone();
        craft_block(&mut probe, &spec, 4, 5004, Vec::new())
    };
    b4.proposer_index = (b4.proposer_index + 1) % VALIDATORS;
    let b5 = BlockSummary { root: 5005, slot: 5, parent_root: 5004, ..b3.clone() };

    chain.set_slot(8);
    let result = chain.process_chain_segment(vec![b1, b2, b3, b4, b5]);
    match result {
        beacon_chain::chain::ChainSegmentResult::Failed { imported_blocks, error } => {
            assert_eq!(imported_blocks, 3);
            assert!(matches!(error, BlockError::IncorrectBlockProposer { .. }));
        }
        _ => panic!("segment must fail at the corrupted block"),
    }
    // The imported prefix is durable; the invalid block and its child are
    // not present anywhere.
    assert!(chain.get_block(5001).is_some());
    assert!(chain.get_block(5002).is_some());
    assert!(chain.get_block(5003).is_some());
    assert!(chain.fork_choice.contains_block(5001));
    assert!(chain.fork_choice.contains_block(5002));
    assert!(chain.fork_choice.contains_block(5003));
    assert!(chain.get_block(5004).is_none());
    assert!(chain.get_block(5005).is_none());
    assert!(!chain.fork_choice.contains_block(5004));
    assert!(!chain.fork_choice.contains_block(5005));
}

#[test]
fn segment_rejects_non_linear_structure_without_importing() {
    let spec = pre_merge_spec();
    let mut chain = new_chain(spec);
    let mut replica = chain.head_beacon_state();
    let b1 = craft_block(&mut replica, &spec, 1, 6001, Vec::new());
    let mut b2 = craft_block(&mut replica, &spec, 2, 6002, Vec::new());
    b2.parent_root = 9999;
    chain.set_slot(4);
    match chain.process_chain_segment(vec![b1.clone(), b2]) {
        beacon_chain::chain::ChainSegmentResult::Failed { imported_blocks, error } => {
            assert_eq!(imported_blocks, 0);
            assert_eq!(error, BlockError::NonLinearParentRoots);
        }
        _ => panic!("broken parent links must fail the segment"),
    }
    assert!(chain.get_block(6001).is_none());

    // Non-increasing slots are refused the same way.
    let b2b = BlockSummary { parent_root: b1.root, slot: 1, ..b1.clone() };
    match chain.process_chain_segment(vec![b1, b2b]) {
        beacon_chain::chain::ChainSegmentResult::Failed { imported_blocks, error } => {
            assert_eq!(imported_blocks, 0);
            assert_eq!(error, BlockError::NonLinearSlots);
        }
        _ => panic!("non-increasing slots must fail the segment"),
    }
}

#[test]
fn invalidation_propagates_to_descendants_and_head_avoids_them() {
    // A -> B -> C, all optimistic; invalidating with latest valid
    // ancestor A marks B and C invalid, leaves A untouched, and head
    // selection never picks B or C again.
    let spec = merge_spec();
    let mut chain = new_chain(spec);
    let mut replica = chain.head_beacon_state();
    let a = craft_block(&mut replica, &spec, 1, 7001, Vec::new());
    let b = craft_block(&mut replica, &spec, 2, 7002, Vec::new());
    let c = craft_block(&mut replica, &spec, 3, 7003, Vec::new());
    let a_payload = a.payload_block_hash.unwrap();
    chain.set_slot(3);
    chain.process_block(a).expect("import a");
    chain.process_block(b).expect("import b");
    chain.process_block(c).expect("import c");

    assert!(matches!(
        chain.fork_choice.get_block_execution_status(7001).unwrap(),
        ExecutionStatus::Optimistic(_)
    ));

    let op = InvalidationOperation::InvalidateMany {
        head_block_root: 7003,
        always_invalidate_head: true,
        latest_valid_ancestor: Some(a_payload),
    };
    chain.process_invalid_execution_payload(&op).expect("justified stays valid");

    assert!(matches!(
        chain.fork_choice.get_block_execution_status(7001).unwrap(),
        ExecutionStatus::Optimistic(_)
    ));
    assert!(matches!(
        chain.fork_choice.get_block_execution_status(7002).unwrap(),
        ExecutionStatus::Invalid(_)
    ));
    assert!(matches!(
        chain.fork_choice.get_block_execution_status(7003).unwrap(),
        ExecutionStatus::Invalid(_)
    ));

    let head = chain.fork_choice.get_head(3).expect("head selection");
    assert_ne!(head, 7002);
    assert_ne!(head, 7003);
    assert_eq!(head, 7001);
}

#[test]
fn proposer_preparation_hits_cache_on_second_request() {
    let spec = merge_spec();
    let mut chain = new_chain(spec);
    chain.el.update_proposer_preparation(0, 99);
    chain.el.update_proposer_preparation(1, 99);
    chain.el.update_proposer_preparation(2, 99);
    chain.el.update_proposer_preparation(3, 99);
    chain.set_slot(1);

    let first = chain.prepare_beacon_proposer(1).expect("first preparation");
    assert_eq!(chain.duty_computations, 1);
    let second = chain.prepare_beacon_proposer(1).expect("second preparation");
    // The same (decision root, slot) answers from the cache: no second
    // duty computation, identical proposer.
    assert_eq!(chain.duty_computations, 1);
    let p1 = first.expect("proposer prepared").0;
    let p2 = second.expect("proposer prepared").0;
    assert_eq!(p1, p2);
}

#[test]
fn reverted_finalized_epoch_is_fatal() {
    let spec = pre_merge_spec();
    let mut chain = new_chain(spec);
    let mut replica = chain.head_beacon_state();
    let b1 = craft_block(&mut replica, &spec, 1, 8001, Vec::new());
    chain.set_slot(1);
    chain.process_block(b1).expect("import");
    // A synthetic head whose finalized epoch is ahead of anything the
    // winner can offer: selecting the winner would revert finality.
    chain.canonical_head.beacon_state.finalized.epoch = 3;
    chain.canonical_head.beacon_state.current_justified.epoch = 3;
    let err = chain.fork_choice_at_slot(1).expect_err("reverting finality must be fatal");
    assert!(matches!(err, ChainError::RevertedFinalizedEpoch { previous_epoch: 3, new_epoch: 0 }));
}

#[test]
fn failed_atomic_write_restores_persisted_fork_choice() {
    let spec = pre_merge_spec();
    let mut chain = new_chain(spec);
    chain.persist_head_and_fork_choice();
    let mut replica = chain.head_beacon_state();
    let block = craft_block(&mut replica, &spec, 1, 9001, Vec::new());
    chain.set_slot(1);

    chain.store.fail_next_write = true;
    let err = chain.process_block(block.clone()).expect_err("write failure surfaces");
    assert!(matches!(
        err,
        BlockError::BeaconChainError(ChainError::DBError(
            beacon_chain::errors::StoreError::AtomicWriteFailed
        ))
    ));
    // Nothing durable, and the in-memory fork choice matches the last
    // persisted snapshot again: no block sits in fork choice while
    // missing from disk.
    assert!(chain.get_block(9001).is_none());
    assert!(!chain.fork_choice.contains_block(9001));
    assert_eq!(chain.fork_choice.nodes.len(), 1);

    // The fault is disarmed: a retry succeeds.
    chain.process_block(block).expect("retry import");
    assert!(chain.get_block(9001).is_some());
    assert!(chain.fork_choice.contains_block(9001));
}

#[test]
fn block_root_queries_distinguish_skipped_slots() {
    let spec = pre_merge_spec();
    let mut chain = new_chain(spec);
    let mut replica = chain.head_beacon_state();
    let b1 = craft_block(&mut replica, &spec, 1, 11_001, Vec::new());
    // Slot 2 is skipped.
    let b3 = craft_block(&mut replica, &spec, 3, 11_003, Vec::new());
    chain.set_slot(3);
    chain.process_block(b1).expect("import");
    chain.process_block(b3).expect("import");
    chain.fork_choice_at_slot(3).expect("head selection");

    assert_eq!(chain.block_root_at_slot(1, WhenSlotSkipped::NoBlock).unwrap(), Some(11_001));
    assert_eq!(chain.block_root_at_slot(2, WhenSlotSkipped::NoBlock).unwrap(), None);
    assert_eq!(chain.block_root_at_slot(2, WhenSlotSkipped::Prev).unwrap(), Some(11_001));
    assert_eq!(chain.block_root_at_slot(0, WhenSlotSkipped::NoBlock).unwrap(), Some(GENESIS_ROOT));
    // Future slots yield nothing.
    assert_eq!(chain.block_root_at_slot(9, WhenSlotSkipped::Prev).unwrap(), None);
}

#[test]
fn produce_block_commits_to_its_post_state() {
    let spec = pre_merge_spec();
    let mut chain = new_chain(spec);
    let mut replica = chain.head_beacon_state();
    let b1 = craft_block(&mut replica, &spec, 1, 12_001, Vec::new());
    chain.set_slot(1);
    chain.process_block(b1).expect("import");
    chain.fork_choice_at_slot(1).expect("head selection");

    chain.set_slot(2);
    let (block, post_state) = chain.produce_block(777, 2, Some(5)).expect("production");
    assert_eq!(block.slot, 2);
    assert_eq!(block.parent_root, 12_001);
    assert_eq!(block.randao, 777);
    assert_eq!(block.graffiti, 5);
    assert_eq!(post_state.slot, 2);
    assert_eq!(post_state.latest_block_root, block.root);
    assert_eq!(post_state.current_state_root, block.state_root);
    let expected_proposer =
        proposer_for(post_state.proposer_decision_root(), 2, post_state.validator_count);
    assert_eq!(block.proposer_index, expected_proposer);
}

#[test]
fn early_attester_cache_serves_pending_head() {
    let spec = pre_merge_spec();
    let mut chain = new_chain(spec);
    let mut replica = chain.head_beacon_state();
    let b1 = craft_block(&mut replica, &spec, 1, 13_001, Vec::new());
    chain.set_slot(1);
    chain.process_block(b1).expect("import");
    // The head snapshot still points at genesis, but the imported block
    // already answers attestation production.
    let att = chain.produce_unaggregated_attestation(1, 0).expect("attestation");
    assert_eq!(att.data.slot, 1);
    assert_eq!(att.data.beacon_block_root, 13_001);
    assert_eq!(att.attesting_indices.len(), 0);
}

#[test]
fn committee_cache_hit_and_evicted_miss_agree() {
    // The same (epoch, decision root) must yield identical committee
    // assignments whether served from the cache or recomputed after
    // eviction.
    let spec = pre_merge_spec();
    let mut chain = new_chain(spec);
    let mut replica = chain.head_beacon_state();
    let b1 = craft_block(&mut replica, &spec, 1, 14_001, Vec::new());
    chain.set_slot(1);
    chain.process_block(b1).expect("import");

    let (first, root_first) = chain.with_committee_cache(14_001, 0).expect("first lookup");
    // Evict everything; the next lookup recomputes from the state.
    chain.shuffling_cache.entries.clear();
    let (second, root_second) = chain.with_committee_cache(14_001, 0).expect("second lookup");
    assert_eq!(root_first, root_second);
    assert_eq!(first.per_slot, second.per_slot);
}

#[test]
fn finality_is_monotone_across_head_selections() {
    // Select the head after every imported block of a finalizing chain:
    // the finalized epoch never decreases at any step.
    let spec = pre_merge_spec();
    let mut chain = new_chain(spec);
    let mut replica = chain.head_beacon_state();
    let mut last_finalized = 0u64;
    for slot in 1..=32u64 {
        let parent = replica.latest_block_root;
        let source = replica.current_justified;
        let att = full_attestation(slot - 1, slot / 8, parent, source);
        let block = craft_block(&mut replica, &spec, slot, 15_000 + slot, vec![att]);
        chain.set_slot(slot);
        chain.process_block(block).expect("import");
        chain.fork_choice_at_slot(slot).expect("head selection");
        let finalized = chain.head_info().finalized_checkpoint.epoch;
        assert!(finalized >= last_finalized);
        last_finalized = finalized;
    }
    assert_eq!(last_finalized, 2);
}

#[test]
fn attestation_production_uses_head_and_cache() {
    let spec = pre_merge_spec();
    let mut chain = new_chain(spec);
    let mut replica = chain.head_beacon_state();
    for slot in 1..=3u64 {
        let block = craft_block(&mut replica, &spec, slot, 16_000 + slot, Vec::new());
        chain.set_slot(slot);
        chain.process_block(block).expect("import");
    }
    chain.fork_choice_at_slot(3).expect("head selection");
    // The early attester cache is cleared by the head swap; production
    // reads the head snapshot.
    let att = chain.produce_unaggregated_attestation(3, 0).expect("attestation at head");
    assert_eq!(att.data.slot, 3);
    assert_eq!(att.data.beacon_block_root, 16_003);
    assert_eq!(att.data.target.epoch, 0);
    // A request below finalization is refused outright.
    chain.canonical_head.beacon_state.finalized.epoch = 1;
    chain.canonical_head.beacon_state.current_justified.epoch = 1;
    let err = chain.produce_unaggregated_attestation(3, 0).expect_err("below finality");
    assert!(matches!(err, ChainError::AttestingToFinalizedSlot { .. }));
}

#[test]
fn gossip_attestation_rejects_equivocation() {
    let spec = pre_merge_spec();
    let mut chain = new_chain(spec);
    let att = Attestation {
        data: AttestationData {
            slot: 0,
            index: 0,
            beacon_block_root: GENESIS_ROOT,
            source: Checkpoint { epoch: 0, root: GENESIS_ROOT },
            target: Checkpoint { epoch: 0, root: GENESIS_ROOT },
        },
        attesting_indices: vec![2],
    };
    chain
        .verify_unaggregated_attestation_for_gossip(att.clone(), None)
        .expect("first vote is new");
    let err = chain
        .verify_unaggregated_attestation_for_gossip(att, None)
        .expect_err("second vote for the epoch is an equivocation risk");
    assert!(matches!(err, ChainError::PriorAttestationKnown { validator_index: 2, epoch: 0 }));
}

#[test]
fn aggregated_attestation_survives_pool_and_filter() {
    let spec = pre_merge_spec();
    let mut chain = new_chain(spec);
    let data = AttestationData {
        slot: 0,
        index: 0,
        beacon_block_root: GENESIS_ROOT,
        source: Checkpoint { epoch: 0, root: GENESIS_ROOT },
        target: Checkpoint { epoch: 0, root: GENESIS_ROOT },
    };
    for signer in 0..3u64 {
        let single = Attestation { data, attesting_indices: vec![signer] };
        let verified = chain
            .verify_unaggregated_attestation_for_gossip(single, None)
            .expect("verified");
        chain.add_to_naive_aggregation_pool(&verified).expect("pooled");
    }
    let agg = chain
        .get_aggregated_attestation(&data)
        .expect("genesis payload is attestable")
        .expect("aggregate exists");
    assert_eq!(agg.attesting_indices, vec![0, 1, 2]);
    // A vote for an untracked block is below finalization.
    let missing = AttestationData { beacon_block_root: 31_337, ..data };
    assert!(chain.get_aggregated_attestation(&missing).expect("no pool entry").is_none());
}

#[test]
fn state_at_slot_serves_past_present_and_future() {
    let spec = pre_merge_spec();
    let mut chain = new_chain(spec);
    let mut replica = chain.head_beacon_state();
    for slot in 1..=2u64 {
        let block = craft_block(&mut replica, &spec, slot, 17_000 + slot, Vec::new());
        chain.set_slot(slot);
        chain.process_block(block).expect("import");
    }
    chain.fork_choice_at_slot(2).expect("head selection");
    // Present: the head state itself.
    let present = chain.state_at_slot(2, StateSkipConfig::WithStateRoots).expect("present");
    assert_eq!(present.latest_block_root, 17_002);
    // Future: the head state advanced through skipped slots.
    let future = chain.state_at_slot(5, StateSkipConfig::WithStateRoots).expect("future");
    assert_eq!(future.slot, 5);
    assert_eq!(future.latest_block_root, 17_002);
    // Past: loaded from storage by its recorded root.
    let past = chain.state_at_slot(1, StateSkipConfig::WithStateRoots).expect("past");
    assert_eq!(past.slot, 1);
    assert_eq!(past.latest_block_root, 17_001);
}

#[test]
fn finalization_prunes_fork_choice_to_the_finalized_subtree() {
    let spec = pre_merge_spec();
    let mut chain = new_chain(spec);
    let mut replica = chain.head_beacon_state();
    for slot in 1..=32u64 {
        let parent = replica.latest_block_root;
        let source = replica.current_justified;
        let att = full_attestation(slot - 1, slot / 8, parent, source);
        let block = craft_block(&mut replica, &spec, slot, 18_000 + slot, vec![att]);
        chain.set_slot(slot);
        chain.process_block(block).expect("import");
    }
    chain.fork_choice_at_slot(32).expect("head selection");
    assert_eq!(chain.head_info().finalized_checkpoint, Checkpoint { epoch: 2, root: 18_016 });
    // Everything above the finalized block survives; everything below it,
    // the genesis anchor included, was pruned away.
    assert!(chain.fork_choice.contains_block(18_016));
    assert!(chain.fork_choice.contains_block(18_024));
    assert!(chain.fork_choice.contains_block(18_032));
    assert!(!chain.fork_choice.contains_block(18_008));
    assert!(!chain.fork_choice.contains_block(GENESIS_ROOT));
    // Storage is untouched by fork-choice pruning.
    assert!(chain.get_block(18_008).is_some());
    // The finalized-checkpoint event went to the sink.
    assert!(chain.events.iter().any(|e| matches!(
        e,
        EventKind::FinalizedCheckpoint { epoch: 2, block: 18_016, .. }
    )));
}

#[test]
fn forkchoice_update_round_trip_confirms_payloads() {
    let spec = merge_spec();
    let mut chain = new_chain(spec);
    let mut replica = chain.head_beacon_state();
    let a = craft_block(&mut replica, &spec, 1, 19_001, Vec::new());
    let b = craft_block(&mut replica, &spec, 2, 19_002, Vec::new());
    let b_payload = b.payload_block_hash.unwrap();
    chain.set_slot(2);
    chain.process_block(a).expect("import a");
    chain.process_block(b).expect("import b");
    chain.fork_choice_at_slot(2).expect("head selection");
    assert_eq!(chain.head_beacon_block_root(), 19_002);

    // The head swap queued an ordered update naming the head's payload.
    let request = *chain.el_updates.last().expect("an update was queued");
    assert_eq!(request.head_block_root, 19_002);
    assert_eq!(request.head_hash, b_payload);

    // The engine's confirmation flows back: the head and its unconfirmed
    // ancestors become valid.
    chain
        .on_forkchoice_updated_response(&request, beacon_chain::chain::PayloadStatus::Valid)
        .expect("a valid response is not an error");
    assert!(matches!(
        chain.fork_choice.get_block_execution_status(19_002).unwrap(),
        ExecutionStatus::Valid(_)
    ));
    assert!(matches!(
        chain.fork_choice.get_block_execution_status(19_001).unwrap(),
        ExecutionStatus::Valid(_)
    ));
    // Syncing responses change nothing.
    chain
        .on_forkchoice_updated_response(&request, beacon_chain::chain::PayloadStatus::Syncing)
        .expect("syncing is benign");
}

#[test]
fn shutdown_persists_head_fork_choice_and_pool() {
    let spec = pre_merge_spec();
    let mut chain = new_chain(spec);
    // The anchor snapshot is persisted from construction on.
    assert!(chain.load_fork_choice().is_some());
    chain.shutdown().expect("shutdown persists");
    assert!(chain.store.persisted_heads.is_some());
    assert!(chain.store.persisted_op_pool.is_some());
    let persisted = chain.load_fork_choice().expect("fork choice persisted");
    assert_eq!(persisted.nodes.len(), chain.fork_choice.nodes.len());
}

#[test]
fn accepted_gossip_attestation_emits_event() {
    let spec = pre_merge_spec();
    let mut chain = new_chain(spec);
    let att = Attestation {
        data: AttestationData {
            slot: 0,
            index: 0,
            beacon_block_root: GENESIS_ROOT,
            source: Checkpoint { epoch: 0, root: GENESIS_ROOT },
            target: Checkpoint { epoch: 0, root: GENESIS_ROOT },
        },
        attesting_indices: vec![2],
    };
    let verified = chain
        .verify_unaggregated_attestation_for_gossip(att, None)
        .expect("a fresh single-signer vote for a known block passes");
    assert_eq!(verified.attestation.attesting_indices, vec![2]);
    assert!(chain.events.iter().any(|e| matches!(
        e,
        EventKind::Attestation { slot: 0, beacon_block_root: GENESIS_ROOT, validator_index: 2 }
    )));
}

#[test]
fn import_registers_block_attestations_everywhere() {
    // A block carrying an attestation feeds the slashing detector,
    // the observed-attestation set and the fork-choice vote table.
    let spec = pre_merge_spec();
    let mut chain = new_chain(spec);
    let mut replica = chain.head_beacon_state();
    let att = full_attestation(0, 0, GENESIS_ROOT, Checkpoint { epoch: 0, root: GENESIS_ROOT });
    let data = att.data;
    let block = craft_block(&mut replica, &spec, 1, 6001, vec![att]);
    chain.set_slot(1);
    chain.process_block(block).expect("import");
    assert!(chain.slasher_feed.contains(&data));
    assert!(chain.observed_attestations.seen.contains(&data));
    // Every signer's latest vote points at the voted root.
    for v in 0..VALIDATORS {
        let vote = chain.fork_choice.votes[v as usize].expect("vote recorded");
        assert_eq!(vote.root, GENESIS_ROOT);
        assert_eq!(vote.epoch, 0);
    }
    // The signers are recorded as block attesters for the target epoch.
    for v in 0..VALIDATORS {
        assert!(chain.observed_block_attesters.seen.contains(&(0, v)));
    }
}

#[test]
fn stale_head_skips_proposer_preparation_without_work() {
    let spec = merge_spec();
    let mut chain = new_chain(spec);
    for v in 0..VALIDATORS {
        chain.el.update_proposer_preparation(v, 9_000 + v);
    }
    let duties_before = chain.duty_computations;
    // The head sits at slot 0; slot 40 is more than four epochs ahead.
    let prepared = chain.prepare_beacon_proposer(40).expect("skip is not an error");
    assert!(prepared.is_none());
    assert_eq!(chain.duty_computations, duties_before);
    assert!(chain.el.prepared.is_empty());
}

#[test]
fn forward_iteration_clips_to_end_slot_with_contents() {
    let spec = pre_merge_spec();
    let mut chain = new_chain(spec);
    let mut replica = chain.head_beacon_state();
    let b1 = craft_block(&mut replica, &spec, 1, 7001, Vec::new());
    let b2 = craft_block(&mut replica, &spec, 2, 7002, Vec::new());
    let b3 = craft_block(&mut replica, &spec, 3, 7003, Vec::new());
    chain.set_slot(3);
    chain.process_block(b1).expect("b1");
    chain.process_block(b2).expect("b2");
    chain.process_block(b3).expect("b3");
    chain.fork_choice_at_slot(3).expect("head selection");

    let clipped = chain.forwards_iter_block_roots_until(0, 2).expect("in range");
    assert_eq!(clipped, vec![(GENESIS_ROOT, 0), (7001, 1), (7002, 2)]);
    let all = chain.forwards_iter_block_roots(0).expect("in range");
    assert_eq!(all, vec![(GENESIS_ROOT, 0), (7001, 1), (7002, 2), (7003, 3)]);

    // The backward walk from the head and the full dump agree with it.
    let rev = chain.rev_iter_block_roots_from(7003).expect("head stored");
    assert_eq!(rev, vec![(7003, 3), (7002, 2), (7001, 1), (GENESIS_ROOT, 0)]);
    let dump = chain.chain_dump().expect("dump");
    assert_eq!(dump.len(), 4);
    assert_eq!(dump[0].beacon_block_root, GENESIS_ROOT);
    assert_eq!(dump[3].beacon_block_root, 7003);
}
