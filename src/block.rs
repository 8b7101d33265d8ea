//! Blocks: timestamped, hash-chained containers of transactions.
use vstd::prelude::*;
use crate::crypto::{sha3_256, sha3_256_of, HashBytes};
use crate::encoding::{i64_bytes, u128_bytes, u64_bytes, write_bytes, write_i64, write_u128, write_u64};
use crate::error::LedgerError;
use crate::transaction::{write_transaction_data, Transaction, TransactionInput};

verus! {

pub type Proof = u128;

#[derive(Debug)]
pub struct Block {
    pub(crate) timestamp: i64,
    pub(crate) transactions: Vec<Transaction>,
    pub(crate) proof: Proof,
    pub(crate) previous_hash: Option<HashBytes>,
}

pub open spec fn transactions_bytes(s: Seq<Transaction>) -> Seq<u8>
    decreases s.len(),
{
    if s.len() == 0 {
        Seq::empty()
    } else {
        transactions_bytes(s.drop_last()) + s.last().content_bytes()
    }
}

pub open spec fn previous_hash_bytes(h: Option<HashBytes>) -> Seq<u8> {
    match h {
        Some(h) => seq![1u8] + h@,
        None => seq![0u8],
    }
}

/// The height a block's last transaction claims a reward for; the genesis
/// block (no transactions, no predecessor) has height zero.
#[verifier::opaque]
pub open spec fn height_of(transactions: Seq<Transaction>, previous_hash: Option<HashBytes>) -> Result<u64, LedgerError> {
    if transactions.len() == 0 {
        if previous_hash is None {
            Ok(0)
        } else {
            Err(LedgerError::BlockHeightUnresolvable)
        }
    } else {
        let inputs = transactions.last().spec_inputs();
        if inputs.len() > 0 && inputs[0] is FromReward {
            Ok(inputs[0]->FromReward_height)
        } else {
            Err(LedgerError::BlockHeightUnresolvable)
        }
    }
}

impl Block {
    pub open(crate) spec fn spec_timestamp(&self) -> i64 {
        self.timestamp
    }

    pub open(crate) spec fn spec_transactions(&self) -> Seq<Transaction> {
        self.transactions@
    }

    pub open(crate) spec fn spec_proof(&self) -> Proof {
        self.proof
    }

    pub open(crate) spec fn spec_previous_hash(&self) -> Option<HashBytes> {
        self.previous_hash
    }

    /// The canonical encoding of the block, fields in order.
    pub open(crate) spec fn content_bytes(&self) -> Seq<u8> {
        i64_bytes(self.timestamp) + u64_bytes(self.transactions@.len() as u64) + transactions_bytes(
            self.transactions@,
        ) + u128_bytes(self.proof) + previous_hash_bytes(self.previous_hash)
    }

    pub open(crate) spec fn spec_hash(&self) -> Seq<u8> {
        sha3_256_of(self.content_bytes())
    }

    /// A block sealed at `timestamp` (nanoseconds since the Unix epoch).
    pub fn new(
        timestamp: i64,
        transactions: Vec<Transaction>,
        proof: Proof,
        previous_hash: Option<HashBytes>,
    ) -> (r: Block)
        ensures
            r.spec_timestamp() == timestamp,
            r.spec_transactions() == transactions@,
            r.spec_proof() == proof,
            r.spec_previous_hash() == previous_hash,
    {
        Block { timestamp, transactions, proof, previous_hash }
    }

    /// The height claimed by the block's reward transaction (its last one).
    pub fn get_block_height(&self) -> (r: Result<u64, LedgerError>)
        ensures
            r == height_of(self.spec_transactions(), self.spec_previous_hash()),
    {
        reveal(height_of);
        if self.transactions.len() > 0 {
            let last = &self.transactions[self.transactions.len() - 1];
            let inputs = last.get_inputs();
            if inputs.len() > 0 {
                match &inputs[0] {
                    TransactionInput::FromReward { height, .. } => Ok(*height),
                    TransactionInput::FromOutput { .. } => Err(LedgerError::BlockHeightUnresolvable),
                }
            } else {
                Err(LedgerError::BlockHeightUnresolvable)
            }
        } else {
            match self.previous_hash {
                None => Ok(0),
                Some(_) => Err(LedgerError::BlockHeightUnresolvable),
            }
        }
    }

    pub fn get_transactions(&self) -> (r: &Vec<Transaction>)
        ensures
            r@ == self.spec_transactions(),
    {
        &self.transactions
    }

    pub fn get_proof(&self) -> (r: &Proof)
        ensures
            *r == self.spec_proof(),
    {
        &self.proof
    }

    pub fn get_previous_hash(&self) -> (r: Option<HashBytes>)
        ensures
            r == self.spec_previous_hash(),
    {
        self.previous_hash
    }

    /// SHA3-256 of the block's canonical encoding.
    pub fn calculate_hash(&self) -> (r: HashBytes)
        ensures
            r@ == self.spec_hash(),
    {
        let mut out: Vec<u8> = Vec::new();
        write_i64(&mut out, self.timestamp);
        write_u64(&mut out, self.transactions.len() as u64);
        let ghost start = out@;
        let mut i: usize = 0;
        while i < self.transactions.len()
            invariant
                i <= self.transactions@.len(),
                out@ == start + transactions_bytes(self.transactions@.take(i as int)),
            decreases self.transactions@.len() - i,
        {
            let t = &self.transactions[i];
            write_transaction_data(&mut out, t.version, &t.inputs, &t.outputs, t.lock_time);
            assert(self.transactions@.take(i + 1).drop_last() =~= self.transactions@.take(i as int));
            i = i + 1;
        }
        assert(self.transactions@.take(self.transactions@.len() as int) =~= self.transactions@);
        write_u128(&mut out, self.proof);
        match &self.previous_hash {
            Some(h) => {
                out.push(1u8);
                write_bytes(&mut out, h);
            },
            None => {
                out.push(0u8);
            },
        }
        assert(out@ =~= self.content_bytes());
        sha3_256(out.as_slice())
    }
}

} // verus!
