use vstd::prelude::*;

use crate::state_diff::StateDiff;
use crate::types::{archives_body, Block, BlockBody, BlockHash, BlockHeader, BlockNumber, OmmerBody};

verus! {

/// Failures of the store itself.
#[derive(Clone, Copy, Debug, PartialEq, Eq, Structural)]
pub enum StorageError {
    /// A write at a height other than the one the table expects next.
    MarkerMismatch { expected: BlockNumber, found: BlockNumber },
    /// A header whose hash is already stored, live or as an ommer.
    BlockHashExists { block_hash: BlockHash },
    /// A row that must exist at this height is missing.
    DBInconsistency { block_number: BlockNumber },
}

/// Each block links to the one below it.
pub open spec fn chain_linked(headers: Seq<BlockHeader>) -> bool {
    forall|i: int| 0 < i < headers.len() ==> (#[trigger] headers[i]).parent_hash == headers[i - 1].block_hash
}

/// No block hash is stored twice: not twice among the live headers, not twice
/// among the ommer headers, and never in both.
pub open spec fn hashes_distinct(live: Seq<BlockHeader>, ommers: Seq<BlockHeader>) -> bool {
    &&& forall|i: int, j: int|
        0 <= i < j < live.len() ==> (#[trigger] live[i]).block_hash != (#[trigger] live[j]).block_hash
    &&& forall|i: int, k: int|
        0 <= i < live.len() && 0 <= k < ommers.len() ==> (#[trigger] live[i]).block_hash
            != (#[trigger] ommers[k]).block_hash
    &&& forall|k: int, l: int|
        0 <= k < l < ommers.len() ==> (#[trigger] ommers[k]).block_hash
            != (#[trigger] ommers[l]).block_hash
}

/// A live header has this hash.
pub open spec fn hash_live(live: Seq<BlockHeader>, hash: BlockHash) -> bool {
    exists|i: int| 0 <= i < live.len() && (#[trigger] live[i]).block_hash == hash
}

/// `new` is `old` without the ommer header that has this hash, if it held
/// one: a block that comes back to the live chain leaves the ommer headers.
pub open spec fn ommer_restored(old: Seq<BlockHeader>, new: Seq<BlockHeader>, hash: BlockHash) -> bool {
    if exists|k: int| 0 <= k < old.len() && (#[trigger] old[k]).block_hash == hash {
        exists|k: int| 0 <= k < old.len() && (#[trigger] old[k]).block_hash == hash && new == old.remove(k)
    } else {
        new == old
    }
}

/// Appending `header` at height `n` keeps the chain linked, when `n` is the
/// next height.
pub open spec fn extends_tail(headers: Seq<BlockHeader>, n: BlockNumber, header: BlockHeader) -> bool {
    n.0 == headers.len() && n.0 > 0 ==> headers[n.0 - 1].block_hash == header.parent_hash
}

/// `new` is `old` with its highest block moved into the ommer tables: the
/// header and body, and the state diff when that height has one, archived
/// under the block's hash.
pub open spec fn reverted_tail(old: SyncStorage, new: SyncStorage) -> bool {
    let n = old.headers().len() - 1;
    let header = old.headers()[n];
    &&& old.headers().len() > 0
    &&& new.headers() == old.headers().take(n)
    &&& new.bodies() == old.bodies().take(n)
    &&& new.ommer_headers() == old.ommer_headers().push(header)
    &&& new.ommer_bodies().len() == old.ommer_bodies().len() + 1
    &&& new.ommer_bodies().drop_last() == old.ommer_bodies()
    &&& new.ommer_bodies().last().0 == header.block_hash
    &&& archives_body(new.ommer_bodies().last().1, old.bodies()[n])
    &&& if old.state_diffs().len() == old.headers().len() {
        &&& new.state_diffs() == old.state_diffs().take(n)
        &&& new.ommer_state_diffs() == old.ommer_state_diffs().push(
            (header.block_hash, old.state_diffs()[n].0, old.state_diffs()[n].1),
        )
    } else {
        &&& new.state_diffs() == old.state_diffs()
        &&& new.ommer_state_diffs() == old.ommer_state_diffs()
    }
}

/// The local store: live tables indexed by height, and ommer tables that keep
/// superseded blocks under their hash. Heights below a table's marker are
/// exactly the ones it holds.
pub struct SyncStorage {
    headers: Vec<BlockHeader>,
    bodies: Vec<BlockBody>,
    state_diffs: Vec<(StateDiff, Vec<(u128, u128)>)>,
    ommer_headers: Vec<BlockHeader>,
    ommer_bodies: Vec<(BlockHash, OmmerBody)>,
    ommer_state_diffs: Vec<(BlockHash, StateDiff, Vec<(u128, u128)>)>,
}

impl SyncStorage {
    /// The live headers; the header at height `h` is at index `h`.
    pub closed spec fn headers(&self) -> Seq<BlockHeader> {
        self.headers@
    }

    /// The live bodies, by height.
    pub closed spec fn bodies(&self) -> Seq<BlockBody> {
        self.bodies@
    }

    /// The live state diffs, by height, each with the class definitions of
    /// contracts it deploys without declaring their class.
    pub closed spec fn state_diffs(&self) -> Seq<(StateDiff, Vec<(u128, u128)>)> {
        self.state_diffs@
    }

    /// Archived headers, in the order they were archived.
    pub closed spec fn ommer_headers(&self) -> Seq<BlockHeader> {
        self.ommer_headers@
    }

    /// Archived bodies with the hash of their block.
    pub closed spec fn ommer_bodies(&self) -> Seq<(BlockHash, OmmerBody)> {
        self.ommer_bodies@
    }

    /// Archived state diffs with the hash of their block.
    pub closed spec fn ommer_state_diffs(&self) -> Seq<(BlockHash, StateDiff, Vec<(u128, u128)>)> {
        self.ommer_state_diffs@
    }

    /// The store's invariants: each header links to the one below it, every
    /// stored header has its body, state diffs never run ahead of headers, and
    /// no block hash is stored twice.
    pub open spec fn wf(&self) -> bool {
        &&& self.headers().len() <= u64::MAX
        &&& self.bodies().len() == self.headers().len()
        &&& self.state_diffs().len() <= self.headers().len()
        &&& chain_linked(self.headers())
        &&& hashes_distinct(self.headers(), self.ommer_headers())
    }

    /// Both stores hold the same rows.
    pub open spec fn same_rows(&self, other: &SyncStorage) -> bool {
        &&& self.headers() == other.headers()
        &&& self.bodies() == other.bodies()
        &&& self.state_diffs() == other.state_diffs()
        &&& self.ommer_headers() == other.ommer_headers()
        &&& self.ommer_bodies() == other.ommer_bodies()
        &&& self.ommer_state_diffs() == other.ommer_state_diffs()
    }

    /// An empty store.
    pub fn new() -> (r: SyncStorage)
        ensures
            r.wf(),
            r.headers().len() == 0,
            r.state_diffs().len() == 0,
            r.ommer_headers().len() == 0,
            r.ommer_bodies().len() == 0,
            r.ommer_state_diffs().len() == 0,
    {
        SyncStorage {
            headers: Vec::new(),
            bodies: Vec::new(),
            state_diffs: Vec::new(),
            ommer_headers: Vec::new(),
            ommer_bodies: Vec::new(),
            ommer_state_diffs: Vec::new(),
        }
    }

    /// One past the highest stored header.
    pub fn get_header_marker(&self) -> (r: BlockNumber)
        requires
            self.wf(),
        ensures
            r.0 == self.headers().len(),
    {
        BlockNumber(self.headers.len() as u64)
    }

    /// One past the highest stored state diff.
    pub fn get_state_marker(&self) -> (r: BlockNumber)
        requires
            self.wf(),
        ensures
            r.0 == self.state_diffs().len(),
    {
        BlockNumber(self.state_diffs.len() as u64)
    }

    /// The live header at a height, if one is stored.
    pub fn get_block_header(&self, block_number: BlockNumber) -> (r: Option<BlockHeader>)
        ensures
            block_number.0 < self.headers().len() ==> r == Some(self.headers()[block_number.0 as int]),
            block_number.0 >= self.headers().len() ==> r is None,
    {
        if (block_number.0 as u128) < (self.headers.len() as u128) {
            Some(self.headers[block_number.0 as usize])
        } else {
            None
        }
    }

    /// The archived header with this hash, if there is one.
    pub fn get_ommer_header(&self, block_hash: BlockHash) -> (r: Option<BlockHeader>)
        ensures
            r is None <==> forall|k: int|
                0 <= k < self.ommer_headers().len() ==> (#[trigger] self.ommer_headers()[k]).block_hash
                    != block_hash,
            r matches Some(h) ==> h.block_hash == block_hash && self.ommer_headers().contains(h),
    {
        let mut k: usize = 0;
        while k < self.ommer_headers.len()
            invariant
                k <= self.ommer_headers@.len(),
                forall|l: int| 0 <= l < k ==> (#[trigger] self.ommer_headers@[l]).block_hash != block_hash,
            decreases self.ommer_headers@.len() - k,
        {
            if self.ommer_headers[k].block_hash == block_hash {
                assert(self.ommer_headers()[k as int].block_hash == block_hash);
                return Some(self.ommer_headers[k]);
            }
            k = k + 1;
        }
        None
    }

    /// The body archived under this block hash, if there is one.
    pub fn get_ommer_body(&self, block_hash: BlockHash) -> (r: Option<&OmmerBody>)
        ensures
            r is None <==> forall|k: int|
                0 <= k < self.ommer_bodies().len() ==> (#[trigger] self.ommer_bodies()[k]).0 != block_hash,
            r matches Some(b) ==> exists|k: int|
                0 <= k < self.ommer_bodies().len() && #[trigger] self.ommer_bodies()[k] == (block_hash, *b),
    {
        let mut k: usize = 0;
        while k < self.ommer_bodies.len()
            invariant
                k <= self.ommer_bodies@.len(),
                forall|l: int| 0 <= l < k ==> (#[trigger] self.ommer_bodies@[l]).0 != block_hash,
            decreases self.ommer_bodies@.len() - k,
        {
            if self.ommer_bodies[k].0 == block_hash {
                assert(self.ommer_bodies()[k as int] == (block_hash, self.ommer_bodies@[k as int].1));
                return Some(&self.ommer_bodies[k].1);
            }
            k = k + 1;
        }
        None
    }

    /// Whether a state diff is archived under this block hash.
    pub fn has_ommer_state_diff(&self, block_hash: BlockHash) -> (r: bool)
        ensures
            r == exists|k: int|
                0 <= k < self.ommer_state_diffs().len() && (#[trigger] self.ommer_state_diffs()[k]).0 == block_hash,
    {
        let mut k: usize = 0;
        while k < self.ommer_state_diffs.len()
            invariant
                k <= self.ommer_state_diffs@.len(),
                forall|l: int| 0 <= l < k ==> (#[trigger] self.ommer_state_diffs@[l]).0 != block_hash,
            decreases self.ommer_state_diffs@.len() - k,
        {
            if self.ommer_state_diffs[k].0 == block_hash {
                assert(self.ommer_state_diffs()[k as int].0 == block_hash);
                return true;
            }
            k = k + 1;
        }
        false
    }

    /// Whether a live header has this hash.
    fn contains_live_hash(&self, block_hash: BlockHash) -> (r: bool)
        ensures
            r == hash_live(self.headers(), block_hash),
    {
        let mut i: usize = 0;
        while i < self.headers.len()
            invariant
                i <= self.headers@.len(),
                forall|l: int| 0 <= l < i ==> (#[trigger] self.headers@[l]).block_hash != block_hash,
            decreases self.headers@.len() - i,
        {
            if self.headers[i].block_hash == block_hash {
                assert(self.headers()[i as int].block_hash == block_hash);
                return true;
            }
            i = i + 1;
        }
        false
    }

    /// The index of the ommer header with this hash, if there is one.
    fn find_ommer_header(&self, block_hash: BlockHash) -> (r: Option<usize>)
        ensures
            r is None ==> forall|k: int|
                0 <= k < self.ommer_headers().len() ==> (#[trigger] self.ommer_headers()[k]).block_hash
                    != block_hash,
            r matches Some(k) ==> k < self.ommer_headers().len() && self.ommer_headers()[k as int].block_hash
                == block_hash,
    {
        let mut k: usize = 0;
        while k < self.ommer_headers.len()
            invariant
                k <= self.ommer_headers@.len(),
                forall|l: int| 0 <= l < k ==> (#[trigger] self.ommer_headers@[l]).block_hash != block_hash,
            decreases self.ommer_headers@.len() - k,
        {
            if self.ommer_headers[k].block_hash == block_hash {
                return Some(k);
            }
            k = k + 1;
        }
        None
    }

    /// Appends a block's header and body at `block_number`, which must be the
    /// header marker. A hash that a live header already has is refused; a
    /// block that was archived before comes back, and its ommer header leaves
    /// the ommer headers, so no hash is both live and an ommer.
    pub fn append_block(&mut self, block_number: BlockNumber, block: Block) -> (r: Result<(), StorageError>)
        requires
            old(self).wf(),
            block_number.0 < u64::MAX,
            extends_tail(old(self).headers(), block_number, block.header),
        ensures
            final(self).wf(),
            block_number.0 != old(self).headers().len() ==> r == Err::<(), StorageError>(
                StorageError::MarkerMismatch {
                    expected: BlockNumber(old(self).headers().len() as u64),
                    found: block_number,
                },
            ),
            block_number.0 == old(self).headers().len() && hash_live(old(self).headers(), block.header.block_hash)
                ==> r == Err::<(), StorageError>(
                StorageError::BlockHashExists { block_hash: block.header.block_hash },
            ),
            r is Err ==> final(self).same_rows(old(self)),
            r is Ok <==> block_number.0 == old(self).headers().len() && !hash_live(
                old(self).headers(),
                block.header.block_hash,
            ),
            r is Ok ==> {
                &&& final(self).headers() == old(self).headers().push(block.header)
                &&& final(self).bodies() == old(self).bodies().push(block.body)
                &&& final(self).state_diffs() == old(self).state_diffs()
                &&& ommer_restored(old(self).ommer_headers(), final(self).ommer_headers(), block.header.block_hash)
                &&& final(self).ommer_bodies() == old(self).ommer_bodies()
                &&& final(self).ommer_state_diffs() == old(self).ommer_state_diffs()
            },
    {
        let marker = self.get_header_marker();
        if block_number.0 != marker.0 {
            return Err(StorageError::MarkerMismatch { expected: marker, found: block_number });
        }
        let hash = block.header.block_hash;
        if self.contains_live_hash(hash) {
            return Err(StorageError::BlockHashExists { block_hash: hash });
        }
        let ghost prev = *self;
        let ghost mut removed: int = -1;
        match self.find_ommer_header(hash) {
            Some(k) => {
                proof {
                    removed = k as int;
                }
                self.ommer_headers.remove(k);
            },
            None => {},
        }
        self.headers.push(block.header);
        self.bodies.push(block.body);
        proof {
            let live = self.headers@;
            let om = self.ommer_headers@;
            let pom = prev.ommer_headers@;
            let n = prev.headers@.len() as int;
            let src = |k: int| if 0 <= removed <= k { k + 1 } else { k };
            assert forall|k: int| 0 <= k < om.len() implies om[k] == pom[src(k)] && src(k) != removed && 0
                <= src(k) < pom.len() by {}
            assert forall|k: int| 0 <= k < om.len() implies (#[trigger] om[k]).block_hash != hash by {
                assert(om[k] == pom[src(k)]);
                if removed >= 0 {
                    assert(pom[removed].block_hash == hash);
                }
            }
            assert forall|i: int, j: int|
                0 <= i < j < live.len() implies (#[trigger] live[i]).block_hash != (#[trigger] live[j]).block_hash by {
                assert(live[i] == prev.headers@[i]);
                if j < n {
                    assert(live[j] == prev.headers@[j]);
                }
            }
            assert forall|i: int, k: int|
                0 <= i < live.len() && 0 <= k < om.len() implies (#[trigger] live[i]).block_hash
                    != (#[trigger] om[k]).block_hash by {
                assert(om[k] == pom[src(k)]);
                if i < n {
                    assert(live[i] == prev.headers@[i]);
                }
            }
            assert forall|k: int, l: int|
                0 <= k < l < om.len() implies (#[trigger] om[k]).block_hash != (#[trigger] om[l]).block_hash by {
                assert(om[k] == pom[src(k)]);
                assert(om[l] == pom[src(l)]);
            }
            if removed >= 0 {
                assert(pom[removed].block_hash == hash);
                assert(om =~= pom.remove(removed));
            } else {
                assert(om =~= pom);
            }
        }
        Ok(())
    }

    /// Appends the state diff of `block_number`, which must be the state
    /// marker and have a stored header.
    pub fn append_state_diff(
        &mut self,
        block_number: BlockNumber,
        diff: StateDiff,
        deployed_contract_class_definitions: Vec<(u128, u128)>,
    ) -> (r: Result<(), StorageError>)
        requires
            old(self).wf(),
        ensures
            final(self).wf(),
            block_number.0 != old(self).state_diffs().len() ==> r == Err::<(), StorageError>(
                StorageError::MarkerMismatch {
                    expected: BlockNumber(old(self).state_diffs().len() as u64),
                    found: block_number,
                },
            ),
            block_number.0 == old(self).state_diffs().len() && block_number.0 >= old(self).headers().len()
                ==> r == Err::<(), StorageError>(StorageError::DBInconsistency { block_number }),
            r is Err ==> final(self).same_rows(old(self)),
            r is Ok <==> block_number.0 == old(self).state_diffs().len() && block_number.0 < old(self).headers().len(),
            r is Ok ==> {
                &&& final(self).headers() == old(self).headers()
                &&& final(self).bodies() == old(self).bodies()
                &&& final(self).state_diffs() == old(self).state_diffs().push((diff, deployed_contract_class_definitions))
                &&& final(self).ommer_headers() == old(self).ommer_headers()
                &&& final(self).ommer_bodies() == old(self).ommer_bodies()
                &&& final(self).ommer_state_diffs() == old(self).ommer_state_diffs()
            },
    {
        let marker = self.get_state_marker();
        if block_number.0 != marker.0 {
            return Err(StorageError::MarkerMismatch { expected: marker, found: block_number });
        }
        if self.state_diffs.len() >= self.headers.len() {
            return Err(StorageError::DBInconsistency { block_number });
        }
        self.state_diffs.push((diff, deployed_contract_class_definitions));
        Ok(())
    }

    /// Archives a state diff under the hash of its (already superseded) block.
    pub fn insert_ommer_state_diff(
        &mut self,
        block_hash: BlockHash,
        diff: StateDiff,
        deployed_contract_class_definitions: Vec<(u128, u128)>,
    )
        requires
            old(self).wf(),
        ensures
            final(self).wf(),
            final(self).headers() == old(self).headers(),
            final(self).bodies() == old(self).bodies(),
            final(self).state_diffs() == old(self).state_diffs(),
            final(self).ommer_headers() == old(self).ommer_headers(),
            final(self).ommer_bodies() == old(self).ommer_bodies(),
            final(self).ommer_state_diffs() == old(self).ommer_state_diffs().push(
                (block_hash, diff, deployed_contract_class_definitions),
            ),
    {
        self.ommer_state_diffs.push((block_hash, diff, deployed_contract_class_definitions));
    }

    /// Moves the highest stored block into the ommer tables under its hash:
    /// its header, its body and, when it has one, its state diff. Any other
    /// height is refused.
    pub fn revert_tail_block(&mut self, block_number: BlockNumber) -> (r: Result<(), StorageError>)
        requires
            old(self).wf(),
        ensures
            final(self).wf(),
            block_number.0 >= old(self).headers().len() ==> r == Err::<(), StorageError>(
                StorageError::DBInconsistency { block_number },
            ),
            block_number.0 + 1 < old(self).headers().len() ==> r == Err::<(), StorageError>(
                StorageError::MarkerMismatch {
                    expected: BlockNumber((old(self).headers().len() - 1) as u64),
                    found: block_number,
                },
            ),
            r is Err ==> final(self).same_rows(old(self)),
            r is Ok <==> block_number.0 + 1 == old(self).headers().len(),
            r is Ok ==> reverted_tail(*old(self), *final(self)),
    {
        let len = self.headers.len();
        if (block_number.0 as u128) >= (len as u128) {
            return Err(StorageError::DBInconsistency { block_number });
        }
        if (block_number.0 as u128) + 1 < (len as u128) {
            return Err(StorageError::MarkerMismatch {
                expected: BlockNumber((len - 1) as u64),
                found: block_number,
            });
        }
        let ghost prev = *self;
        let header = self.headers.pop().unwrap();
        let body = self.bodies.pop().unwrap();
        self.ommer_headers.push(header);
        self.ommer_bodies.push((header.block_hash, OmmerBody::from_body(body)));
        assert(self.ommer_bodies@.drop_last() =~= prev.ommer_bodies@);
        if self.state_diffs.len() == len {
            let (diff, definitions) = self.state_diffs.pop().unwrap();
            self.ommer_state_diffs.push((header.block_hash, diff, definitions));
            assert(self.state_diffs@ =~= prev.state_diffs@.take(block_number.0 as int));
        }
        assert(self.headers@ =~= prev.headers@.take(block_number.0 as int));
        assert(self.bodies@ =~= prev.bodies@.take(block_number.0 as int));
        proof {
            let live = self.headers@;
            let om = self.ommer_headers@;
            assert forall|i: int, k: int|
                0 <= i < live.len() && 0 <= k < om.len() implies (#[trigger] live[i]).block_hash
                    != (#[trigger] om[k]).block_hash by {
                assert(live[i] == prev.headers@[i]);
                if k < prev.ommer_headers@.len() {
                    assert(om[k] == prev.ommer_headers@[k]);
                }
            }
            assert forall|k: int, l: int|
                0 <= k < l < om.len() implies (#[trigger] om[k]).block_hash
                    != (#[trigger] om[l]).block_hash by {
                assert(om[k] == prev.ommer_headers@[k]);
                if l < prev.ommer_headers@.len() {
                    assert(om[l] == prev.ommer_headers@[l]);
                } else {
                    assert(om[l] == prev.headers@[block_number.0 as int]);
                }
            }
        }
        Ok(())
    }
}

/// Every stored header below the header marker, but the genesis one, has as
/// parent hash the hash of the stored header below it.
pub proof fn lemma_stored_chain_linked(s: SyncStorage)
    requires
        s.wf(),
    ensures
        forall|h: int|
            0 < h < s.headers().len() ==> (#[trigger] s.headers()[h]).parent_hash
                == s.headers()[h - 1].block_hash,
{
}

/// Every height below the state marker has a stored header, and the state
/// marker never passes the header marker.
pub proof fn lemma_state_diffs_have_headers(s: SyncStorage)
    requires
        s.wf(),
    ensures
        s.state_diffs().len() <= s.headers().len(),
        forall|h: int|
            #![trigger s.state_diffs()[h]]
            0 <= h < s.state_diffs().len() ==> h < s.headers().len(),
{
}

/// No block hash is both the hash of a live header and of an ommer header.
pub proof fn lemma_live_and_ommer_hashes_disjoint(s: SyncStorage, block_hash: BlockHash)
    requires
        s.wf(),
    ensures
        !((exists|i: int| 0 <= i < s.headers().len() && (#[trigger] s.headers()[i]).block_hash == block_hash)
            && (exists|k: int| 0 <= k < s.ommer_headers().len() && (#[trigger] s.ommer_headers()[k]).block_hash
            == block_hash)),
{
}

} // verus!
