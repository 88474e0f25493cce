use beacon_chain::block::{Attestation, AttestationData};

use beacon_chain::caches::{compute_committees, BeaconProposerCache, ShufflingCache};
use beacon_chain::chain::{BeaconChain, ChainSegmentResult};
use beacon_chain::config::{Config, Timeouts, DEFAULT_GET_HEADER_TIMEOUT_MILLIS};
use beacon_chain::fork_choice::{ForkChoice, Vote};
use beacon_chain::observed::{ObservationOutcome, PairSet, WordSet};
use beacon_chain::pool::{InsertOutcome, NaiveAggregationPool, PoolError, POOL_SLOTS_RETAINED};
use beacon_chain::primitives::{Checkpoint, ExecutionStatus};
use beacon_chain::state::{compute_committee, ChainSpec, StateSummary};

fn data(slot: u64, root: u64) -> AttestationData {
    AttestationData {
        slot,
        index: 0,
        beacon_block_root: root,
        source: Checkpoint { epoch: 0, root: 0 },
        target: Checkpoint { epoch: slot / 8, root },
    }
}

fn one_signer(slot: u64, root: u64, signer: u64) -> Attestation {
    Attestation { data: data(slot, root), attesting_indices: vec![signer] }
}

#[test]
fn pool_insert_outcomes_and_no_double_count() {
    let mut pool = NaiveAggregationPool::new();
    assert_eq!(pool.insert(&one_signer(3, 77, 0)).unwrap(), InsertOutcome::NewItemInserted);
    assert_eq!(pool.insert(&one_signer(3, 77, 1)).unwrap(), InsertOutcome::SignatureAggregated);
    // The exact signer again: nothing changes, nothing is double-counted.
    assert_eq!(pool.insert(&one_signer(3, 77, 1)).unwrap(), InsertOutcome::SignatureAlreadyKnown);
    let agg = pool.get(&data(3, 77)).expect("aggregate present");
    assert_eq!(agg.attesting_indices, vec![0, 1]);

    // A vote with several signers is refused.
    let multi = Attestation { data: data(3, 78), attesting_indices: vec![0, 1] };
    assert!(matches!(pool.insert(&multi), Err(PoolError::NotExactlyOneSigner { signers: 2 })));
}

#[test]
fn pool_rejects_stale_slots_after_pruning() {
    let mut pool = NaiveAggregationPool::new();
    pool.insert(&one_signer(1, 50, 0)).unwrap();
    pool.prune(POOL_SLOTS_RETAINED + 10);
    // The old entry is gone and its slot is now below the floor.
    assert!(pool.get(&data(1, 50)).is_none());
    match pool.insert(&one_signer(1, 50, 0)) {
        Err(PoolError::SlotTooLow { slot, lowest_permissible_slot }) => {
            assert_eq!(slot, 1);
            assert_eq!(lowest_permissible_slot, 10);
        }
        other => panic!("stale insert must be refused, got {other:?}"),
    }
    // A fresh slot is accepted.
    assert_eq!(
        pool.insert(&one_signer(POOL_SLOTS_RETAINED + 10, 51, 0)).unwrap(),
        InsertOutcome::NewItemInserted
    );
}

#[test]
fn observed_sets_report_new_exactly_once() {
    let mut exits = WordSet::new();
    assert_eq!(exits.verify_and_observe(9), ObservationOutcome::New);
    assert_eq!(exits.verify_and_observe(9), ObservationOutcome::AlreadyKnown);
    assert_eq!(exits.verify_and_observe(10), ObservationOutcome::New);

    let mut attesters = PairSet::new();
    assert!(attesters.observe(2, 7));
    assert!(!attesters.observe(2, 7));
    assert!(attesters.observe(3, 7));
    attesters.prune_below(3);
    assert!(!attesters.contains(2, 7));
    assert!(attesters.contains(3, 7));
}

#[test]
fn committee_assignment_is_a_partition_by_slot() {
    // Every validator lands in exactly one committee of the epoch.
    let c = compute_committees(0, 12345, 16);
    let mut seen = vec![0u32; 16];
    for slot_list in &c.per_slot {
        for v in slot_list {
            seen[*v as usize] += 1;
        }
    }
    assert!(seen.iter().all(|n| *n == 1));
}

#[test]
fn shuffling_cache_hit_equals_recomputation() {
    let mut cache = ShufflingCache::new();
    let fresh = compute_committees(2, 999, 8);
    cache.insert(fresh);
    let hit = cache.get(2, 999).expect("cached");
    let recomputed = compute_committees(2, 999, 8);
    assert_eq!(hit.per_slot, recomputed.per_slot);
    // A different decision root yields a different assignment in general.
    assert!(cache.get(2, 1000).is_none());
}

#[test]
fn fork_choice_head_walks_to_heaviest_subtree() {
    let cp = Checkpoint { epoch: 0, root: 1 };
    let mut fc = ForkChoice::from_anchor(1, 0, 101, cp, cp, ExecutionStatus::Irrelevant);
    fc.on_block(2, 1, 1, 102, cp, cp, ExecutionStatus::Irrelevant).unwrap();
    fc.on_block(3, 1, 1, 103, cp, cp, ExecutionStatus::Irrelevant).unwrap();
    // Without votes the tie-break picks the larger root.
    assert_eq!(fc.get_head(1).unwrap(), 3);
    // Two votes for block 2 outweigh the tie-break.
    fc.on_attestation(0, 2, 1).unwrap();
    fc.on_attestation(1, 2, 1).unwrap();
    assert_eq!(fc.get_head(1).unwrap(), 2);
    // A later-epoch vote moves a validator; an older one does not.
    fc.on_attestation(0, 3, 2).unwrap();
    fc.on_attestation(1, 3, 1).unwrap();
    assert_eq!(fc.votes[0], Some(Vote { root: 3, epoch: 2 }));
    assert_eq!(fc.votes[1], Some(Vote { root: 2, epoch: 1 }));
}

#[test]
fn fork_choice_prune_keeps_finalized_subtree() {
    let cp = Checkpoint { epoch: 0, root: 1 };
    let mut fc = ForkChoice::from_anchor(1, 0, 101, cp, cp, ExecutionStatus::Irrelevant);
    fc.on_block(2, 1, 1, 102, cp, cp, ExecutionStatus::Irrelevant).unwrap();
    fc.on_block(3, 2, 2, 103, cp, cp, ExecutionStatus::Irrelevant).unwrap();
    fc.on_block(4, 2, 2, 104, cp, cp, ExecutionStatus::Irrelevant).unwrap();
    // Finalize block 2: its subtree survives, the sibling of its chain
    // does not exist here, and the anchor above it is dropped.
    fc.finalized_checkpoint = Checkpoint { epoch: 1, root: 2 };
    fc.justified_checkpoint = Checkpoint { epoch: 1, root: 2 };
    fc.prune().unwrap();
    assert!(!fc.contains_block(1));
    assert!(fc.contains_block(2));
    assert!(fc.contains_block(3));
    assert!(fc.contains_block(4));
    assert_eq!(fc.get_head(2).unwrap(), 4);
}

#[test]
fn state_transition_justifies_with_supermajority_only() {
    let spec = ChainSpec { seconds_per_slot: 12, altair_fork_epoch: None, bellatrix_fork_epoch: None };
    let mut st = StateSummary::genesis(4, 0, 0, 1, 2, &spec);
    // Cross the epoch boundary with a single attester: no justification.
    st.curr_epoch_attesters = 1;
    for _ in 0..8 {
        st.advance_slot(&spec, true);
    }
    assert_eq!(st.current_justified.epoch, 0);
    assert_eq!(st.current_justified.root, 1);
    // With a supermajority the completed epoch justifies.
    let mut st2 = StateSummary::genesis(4, 0, 0, 1, 2, &spec);
    st2.curr_epoch_attesters = 3;
    for _ in 0..8 {
        st2.advance_slot(&spec, true);
    }
    assert_eq!(st2.current_justified.epoch, 0);
    assert_eq!(st2.slot, 8);
}

#[test]
fn config_paths_and_timeouts() {
    let cfg = Config::new_default();
    assert_eq!(cfg.get_db_path(None, false), ".lighthouse/chain_db");
    assert_eq!(cfg.get_freezer_db_path(None, false), ".lighthouse/freezer_db");
    let cfg2 = Config { freezer_db_path: Some("/tmp/fz".to_string()), ..Config::new_default() };
    assert_eq!(cfg2.get_freezer_db_path(None, false), "/tmp/fz");
    // An existing, distinct legacy directory wins, and the database
    // paths follow the resolved directory.
    let legacy = Some("/home/u/.lighthouse".to_string());
    assert_eq!(cfg.get_data_dir(legacy.clone(), true), "/home/u/.lighthouse");
    assert_eq!(cfg.get_db_path(legacy.clone(), true), "/home/u/.lighthouse/chain_db");
    assert_eq!(cfg.get_freezer_db_path(legacy.clone(), true), "/home/u/.lighthouse/freezer_db");
    assert_eq!(cfg.get_data_dir(legacy, false), ".lighthouse");
    assert_eq!(cfg.get_data_dir(None, false), ".lighthouse");
    assert_eq!(Timeouts::default().get_header_millis, DEFAULT_GET_HEADER_TIMEOUT_MILLIS);
}

#[test]
fn segment_result_collapses_to_error() {
    let ok = ChainSegmentResult::Successful { imported_blocks: 3 };
    assert!(ok.into_block_error().is_ok());
    let failed = ChainSegmentResult::Failed {
        imported_blocks: 1,
        error: beacon_chain::errors::BlockError::NonLinearSlots,
    };
    assert_eq!(
        failed.into_block_error(),
        Err(beacon_chain::errors::BlockError::NonLinearSlots)
    );
}

#[test]
fn fork_schedule_and_committee_formula() {
    let spec = ChainSpec {
        seconds_per_slot: 12,
        altair_fork_epoch: Some(2),
        bellatrix_fork_epoch: Some(5),
    };
    assert_eq!(spec.fork_version_at_epoch(0), 0);
    assert_eq!(spec.fork_version_at_epoch(2), 1);
    assert_eq!(spec.fork_version_at_epoch(4), 1);
    assert_eq!(spec.fork_version_at_epoch(5), 2);
    // The committee of a slot holds exactly the validators whose index
    // plus the seed lands on the slot, in increasing order.
    let c = compute_committee(3, 6, 16);
    for v in &c {
        assert_eq!((v + 3) % 8, 6 % 8);
    }
    assert!(c.windows(2).all(|w| w[0] < w[1]));
}

#[test]
fn proposer_cache_round_trip() {
    let mut cache = BeaconProposerCache::new();
    assert!(cache.get_slot(42, 9).is_none());
    cache.insert(1, 42, vec![5, 6, 7, 0, 1, 2, 3, 4], 0);
    let p = cache.get_slot(42, 9).expect("cached epoch");
    // Slot 9 is the second slot of epoch 1.
    assert_eq!(p.index, 6);
}

#[test]
fn chain_is_usable_for_exit_and_slashing_observation() {
    let spec = ChainSpec { seconds_per_slot: 12, altair_fork_epoch: None, bellatrix_fork_epoch: None };
    let genesis = beacon_chain::block::BlockSummary {
        root: 1,
        slot: 0,
        parent_root: 0,
        proposer_index: 0,
        state_root: 2,
        randao: 0,
        fork_version: 0,
        payload_block_hash: None,
        graffiti: 0,
        attestations: Vec::new(),
    };
    let mut chain =
        BeaconChain::new_from_genesis(spec, beacon_chain::state::ChainConfig::default(), 4, 0, 0, genesis);
    assert_eq!(chain.verify_voluntary_exit_for_gossip(3).unwrap(), ObservationOutcome::New);
    assert_eq!(
        chain.verify_voluntary_exit_for_gossip(3).unwrap(),
        ObservationOutcome::AlreadyKnown
    );
    chain.import_voluntary_exit(3);
    assert_eq!(chain.op_pool.voluntary_exits, vec![3]);
    assert_eq!(chain.verify_proposer_slashing_for_gossip(1).unwrap(), ObservationOutcome::New);
    chain.import_proposer_slashing(1);
    assert_eq!(chain.verify_attester_slashing_for_gossip(2).unwrap(), ObservationOutcome::New);
    chain.import_attester_slashing(2).unwrap();
    // The exit produced an event for the sink.
    assert!(chain
        .events
        .iter()
        .any(|e| matches!(e, beacon_chain::chain::EventKind::VoluntaryExit { validator_index: 3 })));
}
