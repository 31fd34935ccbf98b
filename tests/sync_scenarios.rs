use std::time::Duration;

use papyrus_sync::{
    Block, BlockBody, BlockHash, BlockHeader, BlockNumber, GenericStateSync, StateDiff,
    StateSync, StateSyncError, StorageError, SyncConfig, SyncEvent, SyncStorage, TransactionOutput,
};

fn hash(x: u128) -> BlockHash {
    BlockHash(0, x)
}

fn block(n: u64, parent: u128, own: u128) -> Block {
    Block {
        header: BlockHeader {
            block_hash: hash(own),
            parent_hash: hash(parent),
            block_number: BlockNumber(n),
        },
        body: BlockBody {
            transactions: vec![u128::from(n) * 10, u128::from(n) * 10 + 1, u128::from(n) * 10 + 2],
            transaction_outputs: vec![
                TransactionOutput { actual_fee: 5, events: vec![u128::from(n) * 100] },
                TransactionOutput { actual_fee: 6, events: vec![] },
            ],
        },
    }
}

fn empty_diff() -> StateDiff {
    StateDiff {
        declared_classes: vec![],
        deployed_contracts: vec![],
        nonces: vec![],
        storage_diffs: vec![],
    }
}

fn config() -> SyncConfig {
    SyncConfig { block_propagation_sleep_duration: Duration::from_millis(10) }
}

fn new_sync() -> StateSync {
    StateSync::new(config(), SyncStorage::new())
}

/// A controller whose store holds blocks with these hashes at heights 0, 1, ...
fn sync_with_chain(hashes: &[u128]) -> GenericStateSync {
    let mut sync = new_sync();
    let mut parent = 0;
    for (i, h) in hashes.iter().enumerate() {
        sync.store_block(BlockNumber(i as u64), block(i as u64, parent, *h)).unwrap();
        parent = *h;
    }
    sync
}

fn diff_event(n: u64, h: u128) -> SyncEvent {
    SyncEvent::StateDiffAvailable {
        block_number: BlockNumber(n),
        block_hash: hash(h),
        state_diff: empty_diff(),
        deployed_contract_class_definitions: vec![],
    }
}

#[test]
fn clean_forward_sync() {
    let mut sync = new_sync();
    let blocks = [block(0, 0x00, 0xA), block(1, 0xA, 0xB), block(2, 0xB, 0xC)];
    for (i, b) in blocks.iter().enumerate() {
        let event = SyncEvent::BlockAvailable { block_number: BlockNumber(i as u64), block: b.clone() };
        assert_eq!(sync.process_sync_event(event), Ok(()));
        assert_eq!(sync.storage.get_header_marker(), BlockNumber(i as u64 + 1));
    }
    for (i, h) in [0xA, 0xB, 0xC].iter().enumerate() {
        assert_eq!(sync.process_sync_event(diff_event(i as u64, *h)), Ok(()));
    }
    assert_eq!(sync.storage.get_header_marker(), BlockNumber(3));
    assert_eq!(sync.storage.get_state_marker(), BlockNumber(3));
    assert_eq!(sync.storage.get_block_header(BlockNumber(1)).unwrap().block_hash, hash(0xB));
}

#[test]
fn revert_of_one_block() {
    let mut sync = sync_with_chain(&[0xA, 0xB, 0xC]);
    let central = vec![hash(0xA), hash(0xB), hash(0xC1)];
    assert_eq!(sync.handle_block_reverts(&central), Ok(()));
    assert_eq!(sync.storage.get_header_marker(), BlockNumber(2));
    assert_eq!(sync.storage.get_block_header(BlockNumber(2)), None);
    let ommer = sync.storage.get_ommer_header(hash(0xC)).unwrap();
    assert_eq!(ommer.block_number, BlockNumber(2));
    assert_eq!(ommer.parent_hash, hash(0xB));
    assert_eq!(sync.store_block(BlockNumber(2), block(2, 0xB, 0xC1)), Ok(()));
    assert_eq!(sync.storage.get_header_marker(), BlockNumber(3));
    assert_eq!(sync.storage.get_block_header(BlockNumber(2)).unwrap().block_hash, hash(0xC1));
}

#[test]
fn revert_cascade() {
    let mut sync = sync_with_chain(&[0xA, 0xB, 0xC, 0xD]);
    let central = vec![hash(0xA), hash(0xB), hash(0xC1)];
    assert_eq!(sync.handle_block_reverts(&central), Ok(()));
    assert_eq!(sync.storage.get_header_marker(), BlockNumber(2));
    assert!(sync.storage.get_ommer_header(hash(0xD)).is_some());
    assert!(sync.storage.get_ommer_header(hash(0xC)).is_some());
    assert!(sync.storage.get_ommer_header(hash(0xB)).is_none());
}

#[test]
fn revert_moves_state_diff_to_ommer() {
    let mut sync = sync_with_chain(&[0xA, 0xB]);
    assert_eq!(sync.process_sync_event(diff_event(0, 0xA)), Ok(()));
    assert_eq!(sync.process_sync_event(diff_event(1, 0xB)), Ok(()));
    assert_eq!(sync.revert_block(BlockNumber(1)), Ok(()));
    assert_eq!(sync.storage.get_state_marker(), BlockNumber(1));
    assert!(sync.storage.has_ommer_state_diff(hash(0xB)));
    assert!(!sync.storage.has_ommer_state_diff(hash(0xA)));
}

#[test]
fn late_state_diff_after_revert() {
    let hashes = [0x10, 0x11, 0x12, 0x13, 0x14, 0x01D];
    let mut sync = sync_with_chain(&hashes);
    for (i, h) in hashes.iter().take(5).enumerate() {
        assert_eq!(sync.process_sync_event(diff_event(i as u64, *h)), Ok(()));
    }
    let central = vec![hash(0x10), hash(0x11), hash(0x12), hash(0x13), hash(0x14), hash(0x0E)];
    assert_eq!(sync.handle_block_reverts(&central), Ok(()));
    assert_eq!(sync.store_block(BlockNumber(5), block(5, 0x14, 0x0E)), Ok(()));
    assert_eq!(sync.process_sync_event(diff_event(5, 0x01D)), Ok(()));
    assert!(sync.storage.has_ommer_state_diff(hash(0x01D)));
    assert_eq!(sync.storage.get_state_marker(), BlockNumber(5));
}

#[test]
fn parent_hash_mismatch_mid_stream() {
    let mut sync = sync_with_chain(&[0x1, 0x2, 0x3, 0x4, 0xF0]);
    let r = sync.store_block(BlockNumber(5), block(5, 0xF1, 0x5));
    assert_eq!(
        r,
        Err(StateSyncError::ParentBlockHashMismatch {
            block_number: BlockNumber(5),
            expected_parent_block_hash: hash(0xF1),
            stored_parent_block_hash: hash(0xF0),
        })
    );
    assert_eq!(sync.storage.get_header_marker(), BlockNumber(5));
    let central = vec![hash(0x1), hash(0x2), hash(0x3), hash(0x4), hash(0xF1)];
    assert_eq!(sync.handle_block_reverts(&central), Ok(()));
    assert_eq!(sync.storage.get_header_marker(), BlockNumber(4));
    assert!(sync.storage.get_ommer_header(hash(0xF0)).is_some());
    assert_eq!(sync.store_block(BlockNumber(4), block(4, 0x4, 0xF1)), Ok(()));
}

#[test]
fn diff_references_unknown_header() {
    let mut sync = sync_with_chain(&[0x1, 0x2]);
    assert_eq!(
        sync.process_sync_event(diff_event(7, 0xEE)),
        Err(StateSyncError::StateDiffWithoutMatchingHeader {
            block_number: BlockNumber(7),
            block_hash: hash(0xEE),
        })
    );
    assert_eq!(sync.storage.get_state_marker(), BlockNumber(0));
}

#[test]
fn revert_archives_outputs_and_events() {
    let mut sync = sync_with_chain(&[0xA, 0xB, 0xC]);
    assert_eq!(sync.revert_block(BlockNumber(2)), Ok(()));
    let body = sync.storage.get_ommer_body(hash(0xC)).unwrap();
    assert_eq!(body.transactions, vec![20, 21, 22]);
    assert_eq!(body.transaction_outputs.len(), 2);
    assert_eq!(body.transaction_outputs[0].actual_fee, 5);
    assert_eq!(body.events, vec![vec![200], vec![], vec![]]);
    assert!(sync.storage.get_ommer_body(hash(0xB)).is_none());
}

#[test]
fn archived_block_comes_back() {
    let mut sync = sync_with_chain(&[0xA, 0xB, 0xC]);
    assert_eq!(sync.handle_block_reverts(&vec![hash(0xA), hash(0xB)]), Ok(()));
    assert!(sync.storage.get_ommer_header(hash(0xC)).is_some());
    assert_eq!(sync.store_block(BlockNumber(2), block(2, 0xB, 0xC)), Ok(()));
    assert_eq!(sync.storage.get_header_marker(), BlockNumber(3));
    assert!(sync.storage.get_ommer_header(hash(0xC)).is_none());
    assert_eq!(sync.handle_block_reverts(&vec![hash(0xA), hash(0xB), hash(0xC1)]), Ok(()));
    assert!(sync.storage.get_ommer_header(hash(0xC)).is_some());
}
