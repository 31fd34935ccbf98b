use vstd::prelude::*;

verus! {

/// The height of a block; the genesis block has height zero.
#[derive(Clone, Copy, Debug, PartialEq, Eq, Structural)]
pub struct BlockNumber(pub u64);

impl BlockNumber {
    /// The height just below this one, or `None` at the genesis block.
    pub fn prev(&self) -> (r: Option<BlockNumber>)
        ensures
            self.0 == 0 ==> r is None,
            self.0 > 0 ==> r == Some(BlockNumber((self.0 - 1) as u64)),
    {
        if self.0 == 0 {
            None
        } else {
            Some(BlockNumber(self.0 - 1))
        }
    }
}

/// A 256-bit block hash, held as its high and low halves.
#[derive(Clone, Copy, Debug, PartialEq, Eq, Structural)]
pub struct BlockHash(pub u128, pub u128);

/// The parts of a block header that synchronisation reads.
#[derive(Clone, Copy, Debug, PartialEq, Eq, Structural)]
pub struct BlockHeader {
    pub block_hash: BlockHash,
    pub parent_hash: BlockHash,
    pub block_number: BlockNumber,
}

/// What executing a transaction produced: its fee and the hashes of the
/// events it emitted.
#[derive(Clone, Debug)]
pub struct TransactionOutput {
    pub actual_fee: u128,
    pub events: Vec<u128>,
}

/// A block body: the hashes of its transactions and their outputs, in order.
#[derive(Clone, Debug)]
pub struct BlockBody {
    pub transactions: Vec<u128>,
    pub transaction_outputs: Vec<TransactionOutput>,
}

/// The events of the transaction at `index` in a body: those of its output,
/// or none when it has no output.
pub open spec fn transaction_events(body: BlockBody, index: int) -> Seq<u128> {
    if 0 <= index < body.transaction_outputs@.len() {
        body.transaction_outputs@[index].events@
    } else {
        Seq::empty()
    }
}

/// An archived body: the transactions, their outputs, and one event list
/// per transaction.
#[derive(Clone, Debug)]
pub struct OmmerBody {
    pub transactions: Vec<u128>,
    pub transaction_outputs: Vec<TransactionOutput>,
    pub events: Vec<Vec<u128>>,
}

/// `ommer` archives `body`: same transactions and outputs, and for each
/// transaction the events it emitted.
pub open spec fn archives_body(ommer: OmmerBody, body: BlockBody) -> bool {
    &&& ommer.transactions == body.transactions
    &&& ommer.transaction_outputs == body.transaction_outputs
    &&& ommer.events@.len() == body.transactions@.len()
    &&& forall|i: int| 0 <= i < ommer.events@.len() ==> (#[trigger] ommer.events@[i])@ == transaction_events(body, i)
}

fn copy_events(events: &Vec<u128>) -> (r: Vec<u128>)
    ensures
        r@ == events@,
{
    let mut r: Vec<u128> = Vec::new();
    let mut j: usize = 0;
    while j < events.len()
        invariant
            j <= events@.len(),
            r@ == events@.take(j as int),
        decreases events@.len() - j,
    {
        r.push(events[j]);
        j = j + 1;
        assert(r@ =~= events@.take(j as int));
    }
    assert(events@.take(j as int) =~= events@);
    r
}

impl OmmerBody {
    /// Archives a body, gathering the events of each transaction (an empty
    /// list for a transaction without an output).
    pub fn from_body(body: BlockBody) -> (r: OmmerBody)
        ensures
            archives_body(r, body),
    {
        let mut events: Vec<Vec<u128>> = Vec::new();
        let mut i: usize = 0;
        while i < body.transactions.len()
            invariant
                i <= body.transactions@.len(),
                events@.len() == i,
                forall|l: int| 0 <= l < i ==> (#[trigger] events@[l])@ == transaction_events(body, l),
            decreases body.transactions@.len() - i,
        {
            if i < body.transaction_outputs.len() {
                events.push(copy_events(&body.transaction_outputs[i].events));
            } else {
                events.push(Vec::new());
            }
            i = i + 1;
        }
        OmmerBody {
            transactions: body.transactions,
            transaction_outputs: body.transaction_outputs,
            events,
        }
    }
}

#[derive(Clone, Debug)]
pub struct Block {
    pub header: BlockHeader,
    pub body: BlockBody,
}

/// How long the streams idle when caught up, and the controller after a
/// recoverable error.
#[derive(Clone, Copy, Debug)]
pub struct SyncConfig {
    pub block_propagation_sleep_duration: std::time::Duration,
}

} // verus!
