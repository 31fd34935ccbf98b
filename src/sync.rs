use vstd::prelude::*;

use crate::state_diff::{is_normalized, same_diff, sort_state_diff, StateDiff};
use crate::storage::{hash_live, ommer_restored, reverted_tail, StorageError, SyncStorage};
use crate::types::{Block, BlockHash, BlockHeader, BlockNumber, SyncConfig};

verus! {

/// Failures of the central source.
#[derive(Clone, Copy, Debug, PartialEq, Eq, Structural)]
pub enum CentralError {
    /// The request could not be carried out.
    RequestFailed,
    /// The answer could not be understood.
    BadResponse,
}

#[derive(Clone, Copy, Debug, PartialEq, Eq, Structural)]
pub enum StateSyncError {
    StorageError(StorageError),
    CentralSourceError(CentralError),
    /// The parent hash of an incoming block differs from the hash of the
    /// stored block below it: the chain was reorganised.
    ParentBlockHashMismatch {
        block_number: BlockNumber,
        expected_parent_block_hash: BlockHash,
        stored_parent_block_hash: BlockHash,
    },
    /// A state diff names a block that is stored neither live nor as an ommer.
    StateDiffWithoutMatchingHeader { block_number: BlockNumber, block_hash: BlockHash },
}

pub type StateSyncResult = Result<(), StateSyncError>;

/// A unit of work handed from a stream to the controller.
#[derive(Clone, Debug)]
pub enum SyncEvent {
    BlockAvailable { block_number: BlockNumber, block: Block },
    StateDiffAvailable {
        block_number: BlockNumber,
        block_hash: BlockHash,
        state_diff: StateDiff,
        /// Class definitions of deployed contracts whose classes were not
        /// declared in this state diff.
        deployed_contract_class_definitions: Vec<(u128, u128)>,
    },
}

/// What a stream does next.
#[derive(Clone, Copy, Debug, PartialEq, Eq, Structural)]
pub enum StreamPlan {
    /// Caught up: sleep, then look again.
    Wait,
    /// Fetch the heights `from .. to`, in ascending order.
    Download { from: BlockNumber, to: BlockNumber },
}

/// What the controller does with an error.
#[derive(Clone, Copy, Debug, PartialEq, Eq, Structural)]
pub enum ErrorAction {
    /// A reorganisation was detected: run the revert engine again.
    RestartFromRevert,
    /// Sleep, then start a new outer iteration.
    SleepAndRestart,
    /// Stop synchronising with this error.
    Fail,
}

/// The outcome of checking an incoming block against the stored block below it.
pub open spec fn parent_check(headers: Seq<BlockHeader>, n: BlockNumber, header: BlockHeader) -> StateSyncResult {
    if n.0 == 0 {
        Ok(())
    } else if n.0 - 1 >= headers.len() {
        Err(StateSyncError::StorageError(StorageError::DBInconsistency { block_number: BlockNumber((n.0 - 1) as u64) }))
    } else if headers[n.0 - 1].block_hash != header.parent_hash {
        Err(
            StateSyncError::ParentBlockHashMismatch {
                block_number: n,
                expected_parent_block_hash: header.parent_hash,
                stored_parent_block_hash: headers[n.0 - 1].block_hash,
            },
        )
    } else {
        Ok(())
    }
}

/// The outcome of storing block `n` with this header.
pub open spec fn store_block_result(s: SyncStorage, n: BlockNumber, header: BlockHeader) -> StateSyncResult {
    if parent_check(s.headers(), n, header) is Err {
        parent_check(s.headers(), n, header)
    } else if n.0 != s.headers().len() {
        Err(
            StateSyncError::StorageError(
                StorageError::MarkerMismatch { expected: BlockNumber(s.headers().len() as u64), found: n },
            ),
        )
    } else if hash_live(s.headers(), header.block_hash) {
        Err(StateSyncError::StorageError(StorageError::BlockHashExists { block_hash: header.block_hash }))
    } else {
        Ok(())
    }
}

/// `new` is `old` with a block appended to the live tables, and its header
/// gone from the ommer headers if it was archived there.
pub open spec fn appended_block(old: SyncStorage, new: SyncStorage, block: Block) -> bool {
    &&& new.headers() == old.headers().push(block.header)
    &&& new.bodies() == old.bodies().push(block.body)
    &&& new.state_diffs() == old.state_diffs()
    &&& ommer_restored(old.ommer_headers(), new.ommer_headers(), block.header.block_hash)
    &&& new.ommer_bodies() == old.ommer_bodies()
    &&& new.ommer_state_diffs() == old.ommer_state_diffs()
}

/// Whether a state diff of block `n` with this hash belongs to a superseded
/// block (`true`) or to the live one (`false`); an error when neither table
/// holds such a header.
pub open spec fn reverted_check(s: SyncStorage, n: BlockNumber, hash: BlockHash) -> Result<bool, StateSyncError> {
    if n.0 < s.headers().len() && s.headers()[n.0 as int].block_hash == hash {
        Ok(false)
    } else if exists|k: int| 0 <= k < s.ommer_headers().len() && (#[trigger] s.ommer_headers()[k]).block_hash == hash {
        Ok(true)
    } else {
        Err(StateSyncError::StateDiffWithoutMatchingHeader { block_number: n, block_hash: hash })
    }
}

/// The stored block at `n` must be reverted, given what the central source
/// answered for that height: it has no block there, or one with another hash.
pub open spec fn should_revert(headers: Seq<BlockHeader>, n: int, central_hash: Option<BlockHash>) -> bool {
    match central_hash {
        None => true,
        Some(c) => 0 <= n < headers.len() && headers[n].block_hash != c,
    }
}

/// What a central source whose chain has these hashes answers for height `h`.
pub open spec fn central_hash_at(central: Seq<BlockHash>, h: int) -> Option<BlockHash> {
    if 0 <= h < central.len() {
        Some(central[h])
    } else {
        None
    }
}

/// The highest stored block agrees with the central chain, or nothing is stored.
pub open spec fn tail_agrees(headers: Seq<BlockHeader>, central: Seq<BlockHash>) -> bool {
    headers.len() == 0 || !should_revert(headers, headers.len() - 1, central_hash_at(central, headers.len() - 1))
}

/// The error classes from which the controller may recover by sleeping and
/// starting over. None so far.
pub open spec fn recoverable(err: StateSyncError) -> bool {
    false
}

/// What a stream does with the range from its own marker to its target.
pub open spec fn stream_plan(from: BlockNumber, to: BlockNumber) -> StreamPlan {
    if from.0 < to.0 {
        StreamPlan::Download { from, to }
    } else {
        StreamPlan::Wait
    }
}

fn plan_range(from: BlockNumber, to: BlockNumber) -> (r: StreamPlan)
    ensures
        r == stream_plan(from, to),
{
    if from.0 < to.0 {
        StreamPlan::Download { from, to }
    } else {
        StreamPlan::Wait
    }
}

/// The block stream's next pass: download from the header marker up to the
/// central source's block marker, or wait when there is nothing new.
pub fn plan_block_stream(header_marker: BlockNumber, central_block_marker: BlockNumber) -> (r: StreamPlan)
    ensures
        r == stream_plan(header_marker, central_block_marker),
        header_marker == central_block_marker ==> r == StreamPlan::Wait,
{
    plan_range(header_marker, central_block_marker)
}

/// The state-diff stream's next pass: download from the state marker up to
/// the header marker, never ahead of the headers, or wait.
pub fn plan_state_diff_stream(state_marker: BlockNumber, header_marker: BlockNumber) -> (r: StreamPlan)
    ensures
        r == stream_plan(state_marker, header_marker),
        state_marker == header_marker ==> r == StreamPlan::Wait,
{
    plan_range(state_marker, header_marker)
}

/// The event for a state diff from the central source, with the diff put in
/// its normalised order.
pub fn state_diff_event(
    block_number: BlockNumber,
    block_hash: BlockHash,
    state_diff: StateDiff,
    deployed_contract_class_definitions: Vec<(u128, u128)>,
) -> (r: SyncEvent)
    ensures
        r matches SyncEvent::StateDiffAvailable { block_number: n, block_hash: h, state_diff: d, deployed_contract_class_definitions: c }
            && n == block_number && h == block_hash && c == deployed_contract_class_definitions
            && is_normalized(d) && d.declared_classes@.to_multiset() == state_diff.declared_classes@.to_multiset()
            && d.deployed_contracts@.to_multiset() == state_diff.deployed_contracts@.to_multiset()
            && d.nonces@.to_multiset() == state_diff.nonces@.to_multiset()
            && crate::state_diff::storage_contents(d.storage_diffs@) == crate::state_diff::storage_contents(state_diff.storage_diffs@)
            && (is_normalized(state_diff) ==> same_diff(d, state_diff))
            && (crate::state_diff::diff_keys_unique(state_diff) ==> crate::state_diff::is_strictly_normalized(d)),
{
    let mut state_diff = state_diff;
    sort_state_diff(&mut state_diff);
    SyncEvent::StateDiffAvailable { block_number, block_hash, state_diff, deployed_contract_class_definitions }
}

/// Whether the controller may recover from an error by sleeping and starting
/// over.
pub fn is_recoverable(err: &StateSyncError) -> (r: bool)
    ensures
        r == recoverable(*err),
{
    false
}

/// The controller's reaction to an error met while streaming: a parent-hash
/// mismatch sends it back to the revert engine, a recoverable error to sleep
/// and start over, and any other error ends the sync.
pub fn classify_error(err: &StateSyncError) -> (r: ErrorAction)
    ensures
        err is ParentBlockHashMismatch ==> r == ErrorAction::RestartFromRevert,
        !(err is ParentBlockHashMismatch) && recoverable(*err) ==> r == ErrorAction::SleepAndRestart,
        !(err is ParentBlockHashMismatch) && !recoverable(*err) ==> r == ErrorAction::Fail,
{
    match err {
        StateSyncError::ParentBlockHashMismatch { .. } => ErrorAction::RestartFromRevert,
        _ => {
            if is_recoverable(err) {
                ErrorAction::SleepAndRestart
            } else {
                ErrorAction::Fail
            }
        },
    }
}

/// The outcome of appending the state diff of block `n` to the live table.
pub open spec fn append_state_diff_result(s: SyncStorage, n: BlockNumber) -> StateSyncResult {
    if n.0 != s.state_diffs().len() {
        Err(
            StateSyncError::StorageError(
                StorageError::MarkerMismatch { expected: BlockNumber(s.state_diffs().len() as u64), found: n },
            ),
        )
    } else if n.0 >= s.headers().len() {
        Err(StateSyncError::StorageError(StorageError::DBInconsistency { block_number: n }))
    } else {
        Ok(())
    }
}

/// `new` is `old` with a state diff appended to the live table.
pub open spec fn appended_state_diff(
    old: SyncStorage,
    new: SyncStorage,
    diff: StateDiff,
    definitions: Vec<(u128, u128)>,
) -> bool {
    &&& new.headers() == old.headers()
    &&& new.bodies() == old.bodies()
    &&& new.state_diffs() == old.state_diffs().push((diff, definitions))
    &&& new.ommer_headers() == old.ommer_headers()
    &&& new.ommer_bodies() == old.ommer_bodies()
    &&& new.ommer_state_diffs() == old.ommer_state_diffs()
}

/// `new` is `old` with a state diff archived under a block hash.
pub open spec fn archived_state_diff(
    old: SyncStorage,
    new: SyncStorage,
    hash: BlockHash,
    diff: StateDiff,
    definitions: Vec<(u128, u128)>,
) -> bool {
    &&& new.headers() == old.headers()
    &&& new.bodies() == old.bodies()
    &&& new.state_diffs() == old.state_diffs()
    &&& new.ommer_headers() == old.ommer_headers()
    &&& new.ommer_bodies() == old.ommer_bodies()
    &&& new.ommer_state_diffs() == old.ommer_state_diffs().push((hash, diff, definitions))
}

/// What processing an event does to the store, and what it returns.
pub open spec fn event_processed(old: SyncStorage, new: SyncStorage, event: SyncEvent, r: StateSyncResult) -> bool {
    match event {
        SyncEvent::BlockAvailable { block_number, block } => {
            &&& r == store_block_result(old, block_number, block.header)
            &&& r is Ok ==> appended_block(old, new, block)
        },
        SyncEvent::StateDiffAvailable {
            block_number,
            block_hash,
            state_diff,
            deployed_contract_class_definitions,
        } => match reverted_check(old, block_number, block_hash) {
            Err(e) => r == Err::<(), StateSyncError>(e),
            Ok(false) => {
                &&& r == append_state_diff_result(old, block_number)
                &&& r is Ok ==> appended_state_diff(old, new, state_diff, deployed_contract_class_definitions)
            },
            Ok(true) => {
                &&& r is Ok
                &&& archived_state_diff(old, new, block_hash, state_diff, deployed_contract_class_definitions)
            },
        },
    }
}

/// What the central source, whose chain has these hashes, answers for a height.
fn central_block_hash(central_block_hashes: &Vec<BlockHash>, block_number: BlockNumber) -> (r: Option<BlockHash>)
    ensures
        r == central_hash_at(central_block_hashes@, block_number.0 as int),
{
    if (block_number.0 as u128) < (central_block_hashes.len() as u128) {
        Some(central_block_hashes[block_number.0 as usize])
    } else {
        None
    }
}

/// The sync controller: applies events from the two streams to the local
/// store and runs the revert engine.
pub struct GenericStateSync {
    pub config: SyncConfig,
    pub storage: SyncStorage,
}

pub type StateSync = GenericStateSync;

impl GenericStateSync {
    pub fn new(config: SyncConfig, storage: SyncStorage) -> (r: GenericStateSync)
        ensures
            r.config == config,
            r.storage == storage,
    {
        GenericStateSync { config, storage }
    }

    /// Compares the block's parent hash to the hash of the stored block below
    /// it; the genesis block has none and passes.
    pub fn verify_parent_block_hash(&self, block_number: BlockNumber, block: &Block) -> (r: StateSyncResult)
        requires
            self.storage.wf(),
        ensures
            r == parent_check(self.storage.headers(), block_number, block.header),
    {
        let prev_block_number = match block_number.prev() {
            None => return Ok(()),
            Some(bn) => bn,
        };
        let prev_hash = match self.storage.get_block_header(prev_block_number) {
            None => {
                return Err(
                    StateSyncError::StorageError(
                        StorageError::DBInconsistency { block_number: prev_block_number },
                    ),
                );
            },
            Some(header) => header.block_hash,
        };
        if prev_hash != block.header.parent_hash {
            return Err(
                StateSyncError::ParentBlockHashMismatch {
                    block_number,
                    expected_parent_block_hash: block.header.parent_hash,
                    stored_parent_block_hash: prev_hash,
                },
            );
        }
        Ok(())
    }

    /// Whether a stored block below this one has a hash other than the
    /// block's parent hash: a sign of a reorganisation. A missing block below,
    /// or the genesis block, gives `false`.
    pub fn verify_parent_block_hash_if_exists(&self, block_number: BlockNumber, block: &Block) -> (r: bool)
        requires
            self.storage.wf(),
        ensures
            r == (block_number.0 > 0 && block_number.0 - 1 < self.storage.headers().len()
                && self.storage.headers()[block_number.0 - 1].block_hash != block.header.parent_hash),
    {
        let prev_block_number = match block_number.prev() {
            None => return false,
            Some(bn) => bn,
        };
        match self.storage.get_block_header(prev_block_number) {
            Some(prev_header) => prev_header.block_hash != block.header.parent_hash,
            None => false,
        }
    }

    /// Appends a block after checking that it extends the stored chain.
    pub fn store_block(&mut self, block_number: BlockNumber, block: Block) -> (r: StateSyncResult)
        requires
            old(self).storage.wf(),
            block_number.0 < u64::MAX,
        ensures
            final(self).storage.wf(),
            final(self).config == old(self).config,
            r == store_block_result(old(self).storage, block_number, block.header),
            r is Ok ==> appended_block(old(self).storage, final(self).storage, block),
            r is Err ==> final(self).storage.same_rows(&old(self).storage),
    {
        self.verify_parent_block_hash(block_number, &block)?;
        match self.storage.append_block(block_number, block) {
            Ok(()) => Ok(()),
            Err(e) => Err(StateSyncError::StorageError(e)),
        }
    }

    /// Whether a state diff belongs to a superseded block: `false` when the
    /// live header at its height has its hash, `true` when an ommer header
    /// has it, and an error when neither does.
    pub fn is_reverted_state_diff(&self, block_number: BlockNumber, block_hash: BlockHash) -> (r: Result<bool, StateSyncError>)
        requires
            self.storage.wf(),
        ensures
            r == reverted_check(self.storage, block_number, block_hash),
    {
        match self.storage.get_block_header(block_number) {
            Some(header) => {
                if header.block_hash == block_hash {
                    return Ok(false);
                }
            },
            None => {},
        }
        match self.storage.get_ommer_header(block_hash) {
            Some(h) => {
                let ghost k = self.storage.ommer_headers().index_of(h);
                assert(self.storage.ommer_headers()[k].block_hash == block_hash);
                Ok(true)
            },
            None => Err(StateSyncError::StateDiffWithoutMatchingHeader { block_number, block_hash }),
        }
    }

    /// Stores the data an event carries: a block in the live tables, a state
    /// diff in the live table when it belongs to the live block at its height,
    /// or in the ommer table when it belongs to a superseded one.
    pub fn process_sync_event(&mut self, sync_event: SyncEvent) -> (r: StateSyncResult)
        requires
            old(self).storage.wf(),
            sync_event matches SyncEvent::BlockAvailable { block_number, .. } ==> block_number.0 < u64::MAX,
        ensures
            final(self).storage.wf(),
            final(self).config == old(self).config,
            event_processed(old(self).storage, final(self).storage, sync_event, r),
            r is Err ==> final(self).storage.same_rows(&old(self).storage),
    {
        match sync_event {
            SyncEvent::BlockAvailable { block_number, block } => self.store_block(block_number, block),
            SyncEvent::StateDiffAvailable {
                block_number,
                block_hash,
                state_diff,
                deployed_contract_class_definitions,
            } => {
                if !self.is_reverted_state_diff(block_number, block_hash)? {
                    match self.storage.append_state_diff(
                        block_number,
                        state_diff,
                        deployed_contract_class_definitions,
                    ) {
                        Ok(()) => Ok(()),
                        Err(e) => Err(StateSyncError::StorageError(e)),
                    }
                } else {
                    self.storage.insert_ommer_state_diff(
                        block_hash,
                        state_diff,
                        deployed_contract_class_definitions,
                    );
                    Ok(())
                }
            },
        }
    }

    /// Whether the stored block at a height must be reverted, given the
    /// central source's answer for it: the source has no block there, or one
    /// with another hash.
    pub fn should_revert_block(&self, block_number: BlockNumber, central_block_hash: Option<BlockHash>) -> (r: bool)
        requires
            self.storage.wf(),
        ensures
            r == should_revert(self.storage.headers(), block_number.0 as int, central_block_hash),
    {
        match central_block_hash {
            None => true,
            Some(central_hash) => match self.storage.get_block_header(block_number) {
                Some(header) => header.block_hash != central_hash,
                None => false,
            },
        }
    }

    /// Moves the highest stored block into the ommer tables, in one step.
    pub fn revert_block(&mut self, block_number: BlockNumber) -> (r: StateSyncResult)
        requires
            old(self).storage.wf(),
        ensures
            final(self).storage.wf(),
            final(self).config == old(self).config,
            r is Ok <==> block_number.0 + 1 == old(self).storage.headers().len(),
            r is Ok ==> reverted_tail(old(self).storage, final(self).storage),
            block_number.0 >= old(self).storage.headers().len() ==> r == Err::<(), StateSyncError>(
                StateSyncError::StorageError(StorageError::DBInconsistency { block_number }),
            ),
            block_number.0 + 1 < old(self).storage.headers().len() ==> r == Err::<(), StateSyncError>(
                StateSyncError::StorageError(
                    StorageError::MarkerMismatch {
                        expected: BlockNumber((old(self).storage.headers().len() - 1) as u64),
                        found: block_number,
                    },
                ),
            ),
            r is Err ==> final(self).storage.same_rows(&old(self).storage),
    {
        match self.storage.revert_tail_block(block_number) {
            Ok(()) => Ok(()),
            Err(e) => Err(StateSyncError::StorageError(e)),
        }
    }

    /// One step of the revert engine, for a source that answers one height at
    /// a time: given the central source's answer for the highest stored height,
    /// reverts that block when they disagree and returns the height to ask
    /// about next, or `None` when the engine is done.
    pub fn revert_step(&mut self, block_number: BlockNumber, central_block_hash: Option<BlockHash>) -> (r: Result<
        Option<BlockNumber>,
        StateSyncError,
    >)
        requires
            old(self).storage.wf(),
        ensures
            final(self).storage.wf(),
            final(self).config == old(self).config,
            !should_revert(old(self).storage.headers(), block_number.0 as int, central_block_hash) ==> r
                == Ok::<Option<BlockNumber>, StateSyncError>(None) && final(self).storage.same_rows(&old(self).storage),
            should_revert(old(self).storage.headers(), block_number.0 as int, central_block_hash)
                && block_number.0 + 1 == old(self).storage.headers().len() ==> {
                &&& reverted_tail(old(self).storage, final(self).storage)
                &&& block_number.0 == 0 ==> r == Ok::<Option<BlockNumber>, StateSyncError>(None)
                &&& block_number.0 > 0 ==> r == Ok::<Option<BlockNumber>, StateSyncError>(
                    Some(BlockNumber((block_number.0 - 1) as u64)),
                )
            },
            should_revert(old(self).storage.headers(), block_number.0 as int, central_block_hash)
                && block_number.0 + 1 != old(self).storage.headers().len() ==> r is Err
                && final(self).storage.same_rows(&old(self).storage),
    {
        if !self.should_revert_block(block_number, central_block_hash) {
            return Ok(None);
        }
        self.revert_block(block_number)?;
        Ok(block_number.prev())
    }

    /// The revert engine: while the highest stored block disagrees with the
    /// central chain, whose hashes by height are given, moves it into the
    /// ommer tables. Afterwards the stored tail agrees with the central chain,
    /// and running the engine on a store whose tail already agrees changes
    /// nothing.
    pub fn handle_block_reverts(&mut self, central_block_hashes: &Vec<BlockHash>) -> (r: StateSyncResult)
        requires
            old(self).storage.wf(),
        ensures
            r is Ok,
            final(self).storage.wf(),
            final(self).config == old(self).config,
            tail_agrees(final(self).storage.headers(), central_block_hashes@),
            final(self).storage.headers().len() <= old(self).storage.headers().len(),
            final(self).storage.headers() == old(self).storage.headers().take(
                final(self).storage.headers().len() as int,
            ),
            final(self).storage.bodies() == old(self).storage.bodies().take(
                final(self).storage.headers().len() as int,
            ),
            forall|h: int|
                final(self).storage.headers().len() <= h < old(self).storage.headers().len() ==> should_revert(
                    old(self).storage.headers(),
                    h,
                    #[trigger] central_hash_at(central_block_hashes@, h),
                ),
            final(self).storage.ommer_headers().len() == old(self).storage.ommer_headers().len() + (
            old(self).storage.headers().len() - final(self).storage.headers().len()),
            forall|k: int|
                old(self).storage.ommer_headers().len() <= k < final(self).storage.ommer_headers().len()
                    ==> #[trigger] final(self).storage.ommer_headers()[k] == old(self).storage.headers()[
                old(self).storage.headers().len() - 1 - (k - old(self).storage.ommer_headers().len())],
            tail_agrees(old(self).storage.headers(), central_block_hashes@) ==> final(self).storage.same_rows(
                &old(self).storage,
            ),
    {
        let ghost start = self.storage;
        let ghost len0 = start.headers().len();
        let ghost om0 = start.ommer_headers().len();
        let mut done = false;
        while !done
            invariant
                self.storage.wf(),
                self.config == old(self).config,
                start == old(self).storage,
                start.wf(),
                len0 == start.headers().len(),
                om0 == start.ommer_headers().len(),
                self.storage.headers().len() <= len0,
                self.storage.headers() == start.headers().take(self.storage.headers().len() as int),
                self.storage.bodies() == start.bodies().take(self.storage.headers().len() as int),
                forall|h: int|
                    self.storage.headers().len() <= h < len0 ==> should_revert(
                        start.headers(),
                        h,
                        #[trigger] central_hash_at(central_block_hashes@, h),
                    ),
                self.storage.ommer_headers().len() == om0 + (len0 - self.storage.headers().len()),
                forall|k: int|
                    om0 <= k < self.storage.ommer_headers().len() ==> #[trigger] self.storage.ommer_headers()[k]
                        == start.headers()[len0 - 1 - (k - om0)],
                self.storage.headers().len() == len0 ==> self.storage.same_rows(&start),
                done ==> tail_agrees(self.storage.headers(), central_block_hashes@),
            decreases self.storage.headers().len() + (if done { 0int } else { 1int }),
        {
            match self.storage.get_header_marker().prev() {
                None => {
                    done = true;
                },
                Some(block_number) => {
                    let central_hash = central_block_hash(central_block_hashes, block_number);
                    if self.should_revert_block(block_number, central_hash) {
                        let ghost before = self.storage;
                        self.revert_block(block_number)?;
                        proof {
                            let m = self.storage.headers().len();
                            assert(self.storage.headers() =~= start.headers().take(m as int));
                            assert(self.storage.bodies() =~= start.bodies().take(m as int));
                            assert(before.headers()[m as int] == start.headers()[m as int]);
                            assert forall|k: int|
                                om0 <= k < self.storage.ommer_headers().len() implies #[trigger] self.storage.ommer_headers()[k]
                                    == start.headers()[len0 - 1 - (k - om0)] by {
                                if k < before.ommer_headers().len() {
                                    assert(self.storage.ommer_headers()[k] == before.ommer_headers()[k]);
                                }
                            }
                        }
                    } else {
                        done = true;
                    }
                },
            }
        }
        Ok(())
    }
}

/// Processing an event keeps the stored tail in agreement with the central
/// chain when the event agrees with that chain (a block carries the central
/// hash of its height). So after any sequence of such events, running the
/// revert engine again changes nothing.
pub proof fn lemma_agreeing_events_keep_reverts_idle(
    old: SyncStorage,
    new: SyncStorage,
    event: SyncEvent,
    r: StateSyncResult,
    central: Seq<BlockHash>,
)
    requires
        old.wf(),
        event_processed(old, new, event, r),
        r is Err ==> new.same_rows(&old),
        tail_agrees(old.headers(), central),
        event matches SyncEvent::BlockAvailable { block_number, block } ==> central_hash_at(
            central,
            block_number.0 as int,
        ) == Some(block.header.block_hash),
    ensures
        tail_agrees(new.headers(), central),
{
    if r is Ok {
        match event {
            SyncEvent::BlockAvailable { block_number, block } => {
                let n = new.headers().len() - 1;
                assert(new.headers()[n] == block.header);
            },
            SyncEvent::StateDiffAvailable { .. } => {},
        }
    }
}

/// After any sequence of events that agree with the central chain, each
/// processed in turn (`stores[i + 1]` is what processing `events[i]` left of
/// `stores[i]`), the stored tail still agrees with that chain if it did at
/// the start, so running the revert engine again changes nothing.
pub proof fn lemma_agreeing_event_sequence_keeps_reverts_idle(
    stores: Seq<SyncStorage>,
    events: Seq<SyncEvent>,
    results: Seq<StateSyncResult>,
    central: Seq<BlockHash>,
)
    requires
        stores.len() == events.len() + 1,
        results.len() == events.len(),
        forall|i: int| 0 <= i < stores.len() ==> (#[trigger] stores[i]).wf(),
        forall|i: int|
            0 <= i < events.len() ==> event_processed(stores[i], stores[i + 1], #[trigger] events[i], results[i]),
        forall|i: int| 0 <= i < events.len() ==> (#[trigger] results[i]) is Err ==> stores[i + 1].same_rows(&stores[i]),
        forall|i: int|
            0 <= i < events.len() ==> (#[trigger] events[i] matches SyncEvent::BlockAvailable { block_number, block }
                ==> central_hash_at(central, block_number.0 as int) == Some(block.header.block_hash)),
        tail_agrees(stores[0].headers(), central),
    ensures
        tail_agrees(stores[events.len() as int].headers(), central),
    decreases events.len(),
{
    if events.len() > 0 {
        let m = events.len() - 1;
        lemma_agreeing_event_sequence_keeps_reverts_idle(
            stores.take(m + 1),
            events.take(m),
            results.take(m),
            central,
        );
        assert(stores.take(m + 1)[m] == stores[m]);
        let e = events[m];
        let r = results[m];
        assert(r is Err ==> stores[m + 1].same_rows(&stores[m]));
        lemma_agreeing_events_keep_reverts_idle(stores[m], stores[m + 1], e, r, central);
    }
}

} // verus!
