use std::time::Duration;

use papyrus_sync::sync::{is_recoverable, plan_block_stream, plan_state_diff_stream, state_diff_event};
use papyrus_sync::{
    sort_state_diff, Block, BlockBody, BlockHash, BlockHeader, BlockNumber, CentralError,
    ErrorAction, StateDiff, StateSync, StateSyncError, StorageError, StreamPlan, SyncConfig,
    SyncEvent, SyncStorage,
};

fn hash(x: u128) -> BlockHash {
    BlockHash(7, x)
}

fn block(n: u64, parent: u128, own: u128) -> Block {
    Block {
        header: BlockHeader {
            block_hash: hash(own),
            parent_hash: hash(parent),
            block_number: BlockNumber(n),
        },
        body: BlockBody { transactions: vec![], transaction_outputs: vec![] },
    }
}

fn two_block_sync() -> StateSync {
    let config = SyncConfig { block_propagation_sleep_duration: Duration::from_secs(1) };
    let mut sync = StateSync::new(config, SyncStorage::new());
    sync.store_block(BlockNumber(0), block(0, 0, 0xA)).unwrap();
    sync.store_block(BlockNumber(1), block(1, 0xA, 0xB)).unwrap();
    sync
}

fn unsorted_diff() -> StateDiff {
    StateDiff {
        declared_classes: vec![(3, 30), (1, 10), (2, 20)],
        deployed_contracts: vec![(9, 1), (4, 2)],
        nonces: vec![(5, 1), (0, 7)],
        storage_diffs: vec![(8, vec![(2, 1), (1, 2)]), (6, vec![(5, 5), (0, 0), (3, 3)])],
    }
}

#[test]
fn sort_state_diff_orders_every_mapping() {
    let mut diff = unsorted_diff();
    sort_state_diff(&mut diff);
    assert_eq!(diff.declared_classes, vec![(1, 10), (2, 20), (3, 30)]);
    assert_eq!(diff.deployed_contracts, vec![(4, 2), (9, 1)]);
    assert_eq!(diff.nonces, vec![(0, 7), (5, 1)]);
    assert_eq!(
        diff.storage_diffs,
        vec![(6, vec![(0, 0), (3, 3), (5, 5)]), (8, vec![(1, 2), (2, 1)])]
    );
}

#[test]
fn sort_state_diff_is_idempotent() {
    let mut once = unsorted_diff();
    sort_state_diff(&mut once);
    let mut twice = once.clone();
    sort_state_diff(&mut twice);
    assert_eq!(once.declared_classes, twice.declared_classes);
    assert_eq!(once.deployed_contracts, twice.deployed_contracts);
    assert_eq!(once.nonces, twice.nonces);
    assert_eq!(once.storage_diffs, twice.storage_diffs);
}

#[test]
fn sort_state_diff_of_empty_diff() {
    let mut diff = StateDiff {
        declared_classes: vec![],
        deployed_contracts: vec![],
        nonces: vec![],
        storage_diffs: vec![(1, vec![])],
    };
    sort_state_diff(&mut diff);
    assert!(diff.declared_classes.is_empty());
    assert_eq!(diff.storage_diffs, vec![(1, vec![])]);
}

#[test]
fn state_diff_event_normalizes() {
    let event = state_diff_event(BlockNumber(3), hash(1), unsorted_diff(), vec![(4, 44)]);
    match event {
        SyncEvent::StateDiffAvailable {
            block_number,
            block_hash,
            state_diff,
            deployed_contract_class_definitions,
        } => {
            assert_eq!(block_number, BlockNumber(3));
            assert_eq!(block_hash, hash(1));
            assert_eq!(state_diff.nonces, vec![(0, 7), (5, 1)]);
            assert_eq!(deployed_contract_class_definitions, vec![(4, 44)]);
        }
        SyncEvent::BlockAvailable { .. } => panic!("expected a state diff event"),
    }
}

#[test]
fn genesis_has_no_predecessor() {
    assert_eq!(BlockNumber(0).prev(), None);
    assert_eq!(BlockNumber(5).prev(), Some(BlockNumber(4)));
    let sync = two_block_sync();
    assert_eq!(sync.verify_parent_block_hash(BlockNumber(0), &block(0, 0x99, 0x98)), Ok(()));
}

#[test]
fn caught_up_streams_wait() {
    assert_eq!(plan_block_stream(BlockNumber(4), BlockNumber(4)), StreamPlan::Wait);
    assert_eq!(plan_state_diff_stream(BlockNumber(2), BlockNumber(2)), StreamPlan::Wait);
    assert_eq!(
        plan_block_stream(BlockNumber(4), BlockNumber(9)),
        StreamPlan::Download { from: BlockNumber(4), to: BlockNumber(9) }
    );
    assert_eq!(
        plan_state_diff_stream(BlockNumber(1), BlockNumber(3)),
        StreamPlan::Download { from: BlockNumber(1), to: BlockNumber(3) }
    );
    assert_eq!(plan_block_stream(BlockNumber(6), BlockNumber(5)), StreamPlan::Wait);
}

#[test]
fn caught_up_revert_engine_writes_nothing() {
    let mut sync = two_block_sync();
    assert_eq!(sync.handle_block_reverts(&vec![hash(0xA), hash(0xB), hash(0xC)]), Ok(()));
    assert_eq!(sync.storage.get_header_marker(), BlockNumber(2));
    assert!(sync.storage.get_ommer_header(hash(0xB)).is_none());
    assert_eq!(sync.handle_block_reverts(&vec![hash(0xA), hash(0xB)]), Ok(()));
    assert_eq!(sync.storage.get_header_marker(), BlockNumber(2));
}

#[test]
fn missing_central_block_requires_revert() {
    let sync = two_block_sync();
    assert!(sync.should_revert_block(BlockNumber(1), None));
    assert!(!sync.should_revert_block(BlockNumber(1), Some(hash(0xB))));
    assert!(sync.should_revert_block(BlockNumber(1), Some(hash(0xC))));
    assert!(!sync.should_revert_block(BlockNumber(5), Some(hash(0xC))));
}

#[test]
fn revert_engine_on_empty_store() {
    let config = SyncConfig { block_propagation_sleep_duration: Duration::from_secs(1) };
    let mut sync = StateSync::new(config, SyncStorage::new());
    assert_eq!(sync.handle_block_reverts(&vec![]), Ok(()));
    assert_eq!(sync.storage.get_header_marker(), BlockNumber(0));
}

#[test]
fn revert_engine_reverts_everything_for_empty_central() {
    let mut sync = two_block_sync();
    assert_eq!(sync.handle_block_reverts(&vec![]), Ok(()));
    assert_eq!(sync.storage.get_header_marker(), BlockNumber(0));
    assert!(sync.storage.get_ommer_header(hash(0xA)).is_some());
}

#[test]
fn store_block_at_wrong_height() {
    let mut sync = two_block_sync();
    assert_eq!(
        sync.store_block(BlockNumber(1), block(1, 0xA, 0xC)),
        Err(StateSyncError::StorageError(StorageError::MarkerMismatch {
            expected: BlockNumber(2),
            found: BlockNumber(1),
        }))
    );
}

#[test]
fn store_block_with_known_hash() {
    let mut sync = two_block_sync();
    assert_eq!(
        sync.store_block(BlockNumber(2), block(2, 0xB, 0xA)),
        Err(StateSyncError::StorageError(StorageError::BlockHashExists { block_hash: hash(0xA) }))
    );
    assert_eq!(sync.storage.get_header_marker(), BlockNumber(2));
}

#[test]
fn store_block_without_parent_in_storage() {
    let mut sync = two_block_sync();
    assert_eq!(
        sync.store_block(BlockNumber(5), block(5, 0xD, 0xE)),
        Err(StateSyncError::StorageError(StorageError::DBInconsistency {
            block_number: BlockNumber(4),
        }))
    );
}

#[test]
fn state_diff_ahead_of_state_marker() {
    let mut sync = two_block_sync();
    let event = SyncEvent::StateDiffAvailable {
        block_number: BlockNumber(1),
        block_hash: hash(0xB),
        state_diff: unsorted_diff(),
        deployed_contract_class_definitions: vec![],
    };
    assert_eq!(
        sync.process_sync_event(event),
        Err(StateSyncError::StorageError(StorageError::MarkerMismatch {
            expected: BlockNumber(0),
            found: BlockNumber(1),
        }))
    );
    assert_eq!(sync.storage.get_state_marker(), BlockNumber(0));
}

#[test]
fn is_reverted_state_diff_cases() {
    let mut sync = two_block_sync();
    assert_eq!(sync.is_reverted_state_diff(BlockNumber(1), hash(0xB)), Ok(false));
    sync.revert_block(BlockNumber(1)).unwrap();
    assert_eq!(sync.is_reverted_state_diff(BlockNumber(1), hash(0xB)), Ok(true));
    assert_eq!(
        sync.is_reverted_state_diff(BlockNumber(0), hash(0xC)),
        Err(StateSyncError::StateDiffWithoutMatchingHeader {
            block_number: BlockNumber(0),
            block_hash: hash(0xC),
        })
    );
}

#[test]
fn revert_block_refuses_other_heights() {
    let mut sync = two_block_sync();
    assert_eq!(
        sync.revert_block(BlockNumber(0)),
        Err(StateSyncError::StorageError(StorageError::MarkerMismatch {
            expected: BlockNumber(1),
            found: BlockNumber(0),
        }))
    );
    assert_eq!(
        sync.revert_block(BlockNumber(2)),
        Err(StateSyncError::StorageError(StorageError::DBInconsistency {
            block_number: BlockNumber(2),
        }))
    );
    assert_eq!(sync.storage.get_header_marker(), BlockNumber(2));
}

#[test]
fn error_classification() {
    let mismatch = StateSyncError::ParentBlockHashMismatch {
        block_number: BlockNumber(5),
        expected_parent_block_hash: hash(1),
        stored_parent_block_hash: hash(2),
    };
    assert_eq!(papyrus_sync::sync::classify_error(&mismatch), ErrorAction::RestartFromRevert);
    let central = StateSyncError::CentralSourceError(CentralError::RequestFailed);
    assert!(!is_recoverable(&central));
    assert_eq!(papyrus_sync::sync::classify_error(&central), ErrorAction::Fail);
    let unknown = StateSyncError::StateDiffWithoutMatchingHeader {
        block_number: BlockNumber(7),
        block_hash: hash(0xE),
    };
    assert_eq!(papyrus_sync::sync::classify_error(&unknown), ErrorAction::Fail);
}

#[test]
fn parent_hash_check_if_exists() {
    let sync = two_block_sync();
    assert!(!sync.verify_parent_block_hash_if_exists(BlockNumber(0), &block(0, 0x5, 0x6)));
    assert!(!sync.verify_parent_block_hash_if_exists(BlockNumber(2), &block(2, 0xB, 0xC)));
    assert!(sync.verify_parent_block_hash_if_exists(BlockNumber(2), &block(2, 0xD, 0xC)));
    assert!(!sync.verify_parent_block_hash_if_exists(BlockNumber(9), &block(9, 0xD, 0xC)));
}

#[test]
fn revert_step_walks_down_the_chain() {
    let mut sync = two_block_sync();
    assert_eq!(sync.revert_step(BlockNumber(1), Some(hash(0xB))), Ok(None));
    assert_eq!(sync.storage.get_header_marker(), BlockNumber(2));
    assert_eq!(sync.revert_step(BlockNumber(1), None), Ok(Some(BlockNumber(0))));
    assert_eq!(sync.storage.get_header_marker(), BlockNumber(1));
    assert_eq!(sync.revert_step(BlockNumber(0), Some(hash(0xF))), Ok(None));
    assert_eq!(sync.storage.get_header_marker(), BlockNumber(0));
    assert!(sync.storage.get_ommer_header(hash(0xA)).is_some());
}

#[test]
fn sort_state_diff_keeps_duplicate_free_keys_strict() {
    let mut diff = unsorted_diff();
    sort_state_diff(&mut diff);
    for w in diff.declared_classes.windows(2) {
        assert!(w[0].0 < w[1].0);
    }
    for (_, writes) in &diff.storage_diffs {
        for w in writes.windows(2) {
            assert!(w[0].0 < w[1].0);
        }
    }
}

#[test]
fn same_pairs_sort_to_same_diff() {
    let mut a = unsorted_diff();
    let mut b = StateDiff {
        declared_classes: vec![(2, 20), (3, 30), (1, 10)],
        deployed_contracts: vec![(4, 2), (9, 1)],
        nonces: vec![(0, 7), (5, 1)],
        storage_diffs: vec![(6, vec![(3, 3), (5, 5), (0, 0)]), (8, vec![(1, 2), (2, 1)])],
    };
    sort_state_diff(&mut a);
    sort_state_diff(&mut b);
    assert_eq!(a.declared_classes, b.declared_classes);
    assert_eq!(a.deployed_contracts, b.deployed_contracts);
    assert_eq!(a.nonces, b.nonces);
    assert_eq!(a.storage_diffs, b.storage_diffs);
}
