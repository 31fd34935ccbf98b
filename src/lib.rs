//! Block and state-diff synchronisation: replicates a central chain into a
//! local store, detecting reorganisations and archiving superseded blocks as
//! ommers.

pub mod state_diff;
pub mod storage;
pub mod sync;
pub mod types;

pub use state_diff::{sort_state_diff, StateDiff};
pub use storage::{StorageError, SyncStorage};
pub use sync::{
    CentralError, ErrorAction, GenericStateSync, StateSync, StateSyncError, StateSyncResult,
    StreamPlan, SyncEvent,
};
pub use types::{
    Block, BlockBody, BlockHash, BlockHeader, BlockNumber, OmmerBody, SyncConfig, TransactionOutput,
};
