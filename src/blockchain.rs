//! The ledger: a single linear chain of blocks, a pool of pending
//! transactions, balances replayed from unspent outputs, and mining.
use vstd::prelude::*;
use crate::block::{height_of, Block, Proof};
use crate::crypto::{derive_public_key, ecdsa_signature_of, ecdsa_verify, public_key_of, sha3_256, sha3_256_of, HashBytes, PrivateKey};
use crate::encoding::{copy_range, hashes_equal, u128_bytes, write_u128};
use crate::signature::{sign_transaction, spend_digest, spend_message, Signature};
use crate::canvas::{buyer_of, pixel_price_met, pixel_prices_met, pixel_prices_paid};
use crate::error::LedgerError;
use crate::transaction::{
    inputs_value, lemma_inputs_value_error, lemma_inputs_value_errors, output_value, resolve_input, resolve_input_value, outputs_value, Credits, Transaction, TransactionInput,
    TransactionOutput,
};

verus! {

/// An output named by its transaction's hash and its index there.
pub type OutputRef = (HashBytes, u32, TransactionOutput);

/// All transactions of a sequence of blocks, in chain order.
pub open spec fn chain_transactions(blocks: Seq<Block>) -> Seq<Transaction>
    decreases blocks.len(),
{
    if blocks.len() == 0 {
        Seq::empty()
    } else {
        chain_transactions(blocks.drop_last()) + blocks.last().spec_transactions()
    }
}

/// The first transaction with the given hash.
pub open spec fn find_in(transactions: Seq<Transaction>, hash: Seq<u8>) -> Option<Transaction>
    decreases transactions.len(),
{
    if transactions.len() == 0 {
        None
    } else {
        match find_in(transactions.drop_last(), hash) {
            Some(t) => Some(t),
            None => if transactions.last().spec_hash()@ == hash {
                Some(transactions.last())
            } else {
                None
            },
        }
    }
}

/// The outputs of one transaction, each with its reference.
pub open spec fn output_refs(t: Transaction) -> Seq<OutputRef> {
    Seq::new(t.spec_outputs().len(), |j: int| (t.spec_hash(), j as u32, t.spec_outputs()[j]))
}

/// The outputs of a sequence of transactions, in order.
pub open spec fn transactions_output_refs(transactions: Seq<Transaction>) -> Seq<OutputRef>
    decreases transactions.len(),
{
    if transactions.len() == 0 {
        Seq::empty()
    } else {
        transactions_output_refs(transactions.drop_last()) + output_refs(transactions.last())
    }
}

/// Whether an input spends output `index` of the transaction `hash`.
pub open spec fn input_spends(input: TransactionInput, hash: Seq<u8>, index: u32) -> bool {
    match input {
        TransactionInput::FromOutput { transaction_hash, output_index, .. } =>
            transaction_hash@ == hash && output_index == index,
        TransactionInput::FromReward { .. } => false,
    }
}

/// Whether a transaction has an input that spends output `index` of `hash`.
pub open spec fn transaction_spends(t: Transaction, hash: Seq<u8>, index: u32) -> bool {
    exists|j: int| 0 <= j < t.spec_inputs().len() && input_spends(#[trigger] t.spec_inputs()[j], hash, index)
}

/// Whether some transaction of the sequence spends output `index` of `hash`.
pub open spec fn spent_by(transactions: Seq<Transaction>, hash: Seq<u8>, index: u32) -> bool {
    exists|k: int| 0 <= k < transactions.len() && transaction_spends(#[trigger] transactions[k], hash, index)
}

/// Whether some transaction in the blocks spends output `index` of `hash`.
pub open spec fn spent_in_chain(blocks: Seq<Block>, hash: Seq<u8>, index: u32) -> bool {
    exists|b: int| 0 <= b < blocks.len() && spent_by(#[trigger] blocks[b].spec_transactions(), hash, index)
}

/// Whether a referenced output is a payment output not yet spent in the blocks.
pub open spec fn spendable(blocks: Seq<Block>, r: OutputRef) -> bool {
    r.2 is ToInput && !spent_in_chain(blocks, r.0@, r.1)
}

/// The value an output contributes to the unspent balance of `owner` (of
/// every owner for `None`).
pub open spec fn unspent_value(blocks: Seq<Block>, owner: Option<HashBytes>, r: OutputRef) -> int {
    match r.2 {
        TransactionOutput::ToInput { value, public_key_hash } =>
            if spendable(blocks, r) && (owner matches Some(o) ==> o@ == public_key_hash@) {
                value as int
            } else {
                0
            },
        TransactionOutput::ToPixel { .. } => 0,
    }
}

pub open spec fn unspent_sum(blocks: Seq<Block>, owner: Option<HashBytes>, s: Seq<OutputRef>) -> int
    decreases s.len(),
{
    if s.len() == 0 {
        0
    } else {
        unspent_sum(blocks, owner, s.drop_last()) + unspent_value(blocks, owner, s.last())
    }
}

/// The sum of the magnitudes of the output values.
pub open spec fn volume(s: Seq<OutputRef>) -> int
    decreases s.len(),
{
    if s.len() == 0 {
        0
    } else {
        volume(s.drop_last()) + abs(output_value(s.last().2))
    }
}

pub open spec fn abs(x: int) -> int {
    if x < 0 {
        -x
    } else {
        x
    }
}

/// The spendable outputs of a sequence, in order.
pub open spec fn spendable_refs(blocks: Seq<Block>, s: Seq<OutputRef>) -> Seq<OutputRef>
    decreases s.len(),
{
    if s.len() == 0 {
        Seq::empty()
    } else if spendable(blocks, s.last()) {
        spendable_refs(blocks, s.drop_last()).push(s.last())
    } else {
        spendable_refs(blocks, s.drop_last())
    }
}

/// The base subsidy of every mined block.
pub const BASE_REWARD: i64 = 1000;

/// The proof of work of the genesis block.
pub const GENESIS_PROOF: u128 = 100;

/// Minimum block height before a reward can be spent.
pub const BLOCK_LOCK_TIME: u32 = 0;

#[derive(Debug)]
pub struct Blockchain {
    pub(crate) miner_public_key_hash: HashBytes,
    pub(crate) blocks: Vec<Block>,
    pub(crate) block_hashes: Vec<HashBytes>,
    pub(crate) transactions: Vec<Transaction>,
    pub(crate) last_block_hash: HashBytes,
    pub(crate) output_volume: i64,
}

impl Blockchain {
    pub open(crate) spec fn spec_blocks(&self) -> Seq<Block> {
        self.blocks@
    }

    pub open(crate) spec fn spec_pending(&self) -> Seq<Transaction> {
        self.transactions@
    }

    pub open(crate) spec fn spec_miner(&self) -> HashBytes {
        self.miner_public_key_hash
    }

    pub open(crate) spec fn spec_last_block_hash(&self) -> HashBytes {
        self.last_block_hash
    }

    /// Every committed transaction, in chain order.
    pub open(crate) spec fn committed(&self) -> Seq<Transaction> {
        chain_transactions(self.blocks@)
    }

    /// Every committed output with its reference, in chain order.
    pub open(crate) spec fn all_outputs(&self) -> Seq<OutputRef> {
        transactions_output_refs(self.committed())
    }

    /// The unspent balance of `owner`, or of everyone for `None`.
    pub open(crate) spec fn unspent_total(&self, owner: Option<HashBytes>) -> int {
        unspent_sum(self.blocks@, owner, self.all_outputs())
    }

    /// A single linear chain starting at the genesis block, each block naming
    /// its predecessor's hash and holding its height, with the head pointer
    /// on the last one.
    #[verifier::opaque]
    pub open(crate) spec fn wf(&self) -> bool {
        &&& self.blocks@.len() >= 1
        &&& self.block_hashes@.len() == self.blocks@.len()
        &&& forall|i: int| 0 <= i < self.blocks@.len() ==> (#[trigger] self.block_hashes@[i])@
            == self.blocks@[i].spec_hash()
        &&& self.blocks@[0].spec_previous_hash() is None
        &&& forall|i: int| 1 <= i < self.blocks@.len() ==> (#[trigger] self.blocks@[i]).spec_previous_hash()
            == Some(self.block_hashes@[i - 1])
        &&& self.last_block_hash == self.block_hashes@.last()
        &&& self.output_volume == volume(self.all_outputs())
        &&& forall|i: int| 0 <= i < self.blocks@.len() ==> height_of(
            (#[trigger] self.blocks@[i]).spec_transactions(),
            self.blocks@[i].spec_previous_hash(),
        ) == Ok::<u64, LedgerError>(i as u64)
    }

    /// A ledger whose only block is the fixed genesis block (timestamp zero,
    /// no transactions, proof 100, no predecessor).
    pub fn new(miner_public_key_hash: HashBytes) -> (r: Blockchain)
        ensures
            r.wf(),
            r.spec_miner() == miner_public_key_hash,
            r.spec_blocks().len() == 1,
            r.spec_blocks()[0].spec_timestamp() == 0,
            r.spec_blocks()[0].spec_transactions().len() == 0,
            r.spec_blocks()[0].spec_proof() == GENESIS_PROOF,
            r.spec_blocks()[0].spec_previous_hash() is None,
            r.spec_pending().len() == 0,
            r.spec_last_block_hash()@ == r.spec_blocks()[0].spec_hash(),
    {
        let genesis = Block::new(0, Vec::new(), GENESIS_PROOF, None);
        let genesis_hash = genesis.calculate_hash();
        let mut blocks: Vec<Block> = Vec::new();
        blocks.push(genesis);
        let mut block_hashes: Vec<HashBytes> = Vec::new();
        block_hashes.push(genesis_hash);
        let r = Blockchain {
            miner_public_key_hash,
            blocks,
            block_hashes,
            transactions: Vec::new(),
            last_block_hash: genesis_hash,
            output_volume: 0,
        };
        proof {
            reveal(height_of);
            reveal(Blockchain::wf);
            assert(r.blocks@.drop_last() =~= Seq::<Block>::empty());
            assert(chain_transactions(r.blocks@.drop_last()) =~= Seq::<Transaction>::empty());
            assert(r.committed() =~= Seq::<Transaction>::empty());
            assert(transactions_output_refs(r.committed()) =~= Seq::<OutputRef>::empty());
        }
        r
    }

    /// Whether `proof` follows `last_proof`; the same inputs always give the
    /// same answer.
    pub fn validate_proof(last_proof: &Proof, proof: &Proof) -> (r: bool)
        ensures
            r == proof_valid(*last_proof, *proof),
    {
        let mut encoded: Vec<u8> = Vec::new();
        write_u128(&mut encoded, *last_proof);
        write_u128(&mut encoded, *proof);
        let hash = sha3_256(encoded.as_slice());
        hash[0] == 0
    }

    /// A proof of work following the last block's proof.
    pub fn proof_of_work(&self) -> (r: Result<Proof, LedgerError>)
        requires
            self.wf(),
        ensures
            r matches Ok(p) ==> proof_valid(self.spec_blocks().last().spec_proof(), p),
            r matches Err(e) ==> e == LedgerError::ProofNotFound,
            r is Err ==> forall|p: Proof| p < u128::MAX ==> !proof_valid(self.spec_blocks().last().spec_proof(), p),
    {
        let last_proof = *self.get_last_block().get_proof();
        match search_proof(last_proof) {
            Some(p) => Ok(p),
            None => Err(LedgerError::ProofNotFound),
        }
    }

    pub fn get_last_block(&self) -> (r: &Block)
        requires
            self.wf(),
        ensures
            *r == self.spec_blocks().last(),
    {
        proof {
            reveal(Blockchain::wf);
        }
        &self.blocks[self.blocks.len() - 1]
    }

    pub fn get_miner_public_key_hash(&self) -> (r: HashBytes)
        ensures
            r == self.spec_miner(),
    {
        self.miner_public_key_hash
    }

    pub fn get_last_block_hash(&self) -> (r: HashBytes)
        ensures
            r == self.spec_last_block_hash(),
    {
        self.last_block_hash
    }

    pub fn get_blocks(&self) -> (r: &Vec<Block>)
        ensures
            r@ == self.spec_blocks(),
    {
        &self.blocks
    }

    pub fn get_pending_transactions(&self) -> (r: &Vec<Transaction>)
        ensures
            r@ == self.spec_pending(),
    {
        &self.transactions
    }

    /// Whether a committed transaction spends output `output_index` of `transaction_hash`.
    pub fn is_output_spent(&self, transaction_hash: &HashBytes, output_index: u32) -> (r: bool)
        ensures
            r == spent_in_chain(self.spec_blocks(), transaction_hash@, output_index),
    {
        let mut b: usize = 0;
        while b < self.blocks.len()
            invariant
                b <= self.blocks@.len(),
                forall|c: int| 0 <= c < b ==> !spent_by(#[trigger] self.blocks@[c].spec_transactions(), transaction_hash@, output_index),
            decreases self.blocks@.len() - b,
        {
            if any_spends(self.blocks[b].get_transactions(), transaction_hash, output_index) {
                return true;
            }
            b = b + 1;
        }
        false
    }

    /// Whether the next block's reward, or the chain's total output value in
    /// magnitude once it is added, would leave the credit range.
    pub open(crate) spec fn mining_overflows(&self) -> bool {
        block_reward(self.transactions@) > i64::MAX || self.output_volume + volume(
            transactions_output_refs(self.transactions@),
        ) + block_reward(self.transactions@) > i64::MAX
    }

    /// What a successful `mine` leaves: the pending pool sealed into a new
    /// block behind the old head, ending with the reward transaction.
    pub open(crate) spec fn mined_from(&self, before: Blockchain, timestamp: i64) -> bool {
        let reward = block_reward(before.transactions@);
        let blocks = self.blocks@;
        let block = blocks.last();
        let reward_tx = block.spec_transactions().last();
        &&& blocks.len() == before.blocks@.len() + 1
        &&& blocks.drop_last() == before.blocks@
        &&& block.spec_transactions().len() == before.transactions@.len() + 1
        &&& block.spec_transactions().drop_last() == before.transactions@
        &&& reward_tx.spec_inputs() == seq![
            TransactionInput::FromReward { height: before.blocks@.len() as u64, value: reward as i64 },
        ]
        &&& reward_tx.spec_outputs() == seq![
            TransactionOutput::ToInput { value: reward as i64, public_key_hash: before.miner_public_key_hash },
        ]
        &&& reward_tx.spec_lock_time() == BLOCK_LOCK_TIME
        &&& reward_tx.spec_balance() == 0
        &&& block.spec_previous_hash() == Some(before.last_block_hash)
        &&& proof_valid(before.blocks@.last().spec_proof(), block.spec_proof())
        &&& block.spec_timestamp() == timestamp
        &&& self.last_block_hash@ == block.spec_hash()
        &&& self.transactions@.len() == 0
        &&& self.miner_public_key_hash == before.miner_public_key_hash
    }

    /// The reward transaction of the next block: it claims `reward` at the
    /// next height and pays it to the miner.
    fn reward_transaction(&self, reward: i64) -> (r: Result<Transaction, LedgerError>)
        requires
            self.wf(),
            reward >= 0,
        ensures
            r matches Ok(r) && r.spec_inputs() == seq![
                TransactionInput::FromReward { height: self.blocks@.len() as u64, value: reward },
            ] && r.spec_outputs() == seq![
                TransactionOutput::ToInput { value: reward, public_key_hash: self.miner_public_key_hash },
            ] && r.spec_lock_time() == BLOCK_LOCK_TIME && r.spec_balance() == 0,
    {
        proof {
            lemma_wf_height(*self);
        }
        let block_count = self.blocks.len();
        assert(block_count <= usize::MAX);
        let height = match self.get_last_block().get_block_height() {
            Ok(h) => h,
            Err(e) => {
                return Err(e);
            },
        };
        let inputs = vec![TransactionInput::FromReward { height: height + 1, value: reward }];
        let outputs = vec![TransactionOutput::ToInput { value: reward, public_key_hash: self.miner_public_key_hash }];
        proof {
            assert(inputs@.drop_last() =~= Seq::<TransactionInput>::empty());
            assert(outputs@.drop_last() =~= Seq::<TransactionOutput>::empty());
            assert(inputs_value(self.committed(), inputs@.drop_last()) == Ok::<int, LedgerError>(0));
            assert(inputs_value(self.committed(), inputs@) == Ok::<int, LedgerError>(reward as int));
            assert(outputs_value(outputs@.drop_last()) == 0);
            assert(outputs_value(outputs@) == reward as int);
        }
        Transaction::try_new(self, inputs, outputs, BLOCK_LOCK_TIME)
    }

    /// The sum of the pending balances.
    fn pending_slack(&self) -> (r: i128)
        ensures
            r == pending_balance(self.transactions@),
            0 <= r <= (self.transactions@.len() as int) * 0x8000_0000_0000_0000,
    {
        let mut slack: i128 = 0;
        let mut k: usize = 0;
        while k < self.transactions.len()
            invariant
                k <= self.transactions@.len(),
                slack == pending_balance(self.transactions@.take(k as int)),
                0 <= slack <= (k as int) * 0x8000_0000_0000_0000,
            decreases self.transactions@.len() - k,
        {
            assert(self.transactions@.take(k + 1).drop_last() =~= self.transactions@.take(k as int));
            slack = slack + self.transactions[k].get_balance() as i128;
            k = k + 1;
        }
        assert(self.transactions@.take(self.transactions@.len() as int) =~= self.transactions@);
        slack
    }

    /// The total output value of the pending pool in magnitude, if it is at
    /// most `limit`.
    fn pending_volume_within(&self, limit: i128) -> (r: Option<i128>)
        requires
            0 <= limit <= i64::MAX,
        ensures
            r matches Some(v) ==> v == volume(transactions_output_refs(self.transactions@)) && 0 <= v <= limit,
            r is None <==> volume(transactions_output_refs(self.transactions@)) > limit,
    {
        let ghost all = self.transactions@;
        let mut added: i128 = 0;
        let mut k: usize = 0;
        while k < self.transactions.len()
            invariant
                all == self.transactions@,
                k <= all.len(),
                0 <= limit <= i64::MAX,
                added == volume(transactions_output_refs(all.take(k as int))),
                0 <= added <= limit,
            decreases all.len() - k,
        {
            assert(all.take(k + 1).drop_last() =~= all.take(k as int));
            proof {
                lemma_volume_append(transactions_output_refs(all.take(k as int)), output_refs(all[k as int]));
            }
            added = added + transaction_volume(&self.transactions[k]);
            if added > limit {
                proof {
                    assert(all =~= all.take(k + 1) + all.skip(k + 1));
                    lemma_refs_append(all.take(k + 1), all.skip(k + 1));
                    lemma_volume_append(
                        transactions_output_refs(all.take(k + 1)),
                        transactions_output_refs(all.skip(k + 1)),
                    );
                    lemma_volume_nonneg(transactions_output_refs(all.skip(k + 1)));
                }
                return None;
            }
            k = k + 1;
        }
        assert(all.take(all.len() as int) =~= all);
        Some(added)
    }

    /// Seals the pending pool into a new block stamped `timestamp`
    /// (nanoseconds since the Unix epoch): appends a reward transaction paying
    /// the base subsidy plus the pool's slack to the miner, finds a proof of
    /// work and advances the head. On failure nothing changes.
    pub fn mine(&mut self, timestamp: i64) -> (r: Result<(), LedgerError>)
        requires
            old(self).wf(),
        ensures
            final(self).wf(),
            r is Ok ==> final(self).mined_from(*old(self), timestamp),
            r is Err ==> *final(self) == *old(self),
            r == Err::<(), LedgerError>(LedgerError::ValueOverflow) <==> old(self).mining_overflows(),
            r is Err ==> r == Err::<(), LedgerError>(LedgerError::ValueOverflow) || r == Err::<
                (),
                LedgerError,
            >(LedgerError::ProofNotFound),
            r == Err::<(), LedgerError>(LedgerError::ProofNotFound) ==> forall|p: Proof|
                p < u128::MAX ==> !proof_valid(old(self).spec_blocks().last().spec_proof(), p),
    {
        proof {
            lemma_wf_volume(*self);
        }
        let slack = self.pending_slack();
        if slack > 0x7fff_ffff_ffff_ffff - 1000 {
            return Err(LedgerError::ValueOverflow);
        }
        let reward: i64 = BASE_REWARD + slack as i64;
        assert(reward as int == block_reward(self.transactions@));
        let limit: i128 = 0x7fff_ffff_ffff_ffff - self.output_volume as i128 - reward as i128;
        if limit < 0 {
            proof {
                lemma_volume_nonneg(transactions_output_refs(self.transactions@));
            }
            return Err(LedgerError::ValueOverflow);
        }
        let added = match self.pending_volume_within(limit) {
            Some(v) => v,
            None => {
                return Err(LedgerError::ValueOverflow);
            },
        };

        let reward_transaction = match self.reward_transaction(reward) {
            Ok(t) => t,
            Err(e) => {
                return Err(e);
            },
        };
        let proof = match self.proof_of_work() {
            Ok(p) => p,
            Err(e) => {
                return Err(e);
            },
        };

        // Seal the block and advance the head.
        assert(0 <= self.output_volume as i128 + added + reward as i128 <= i64::MAX);
        let new_volume = (self.output_volume as i128 + added + reward as i128) as i64;
        let ghost before = *self;
        let mut transactions: Vec<Transaction> = Vec::new();
        std::mem::swap(&mut self.transactions, &mut transactions);
        transactions.push(reward_transaction);
        let block = Block::new(timestamp, transactions, proof, Some(self.last_block_hash));
        let block_hash = block.calculate_hash();
        self.blocks.push(block);
        self.block_hashes.push(block_hash);
        self.last_block_hash = block_hash;
        self.output_volume = new_volume;
        proof {
            assert(self.blocks@.drop_last() =~= before.blocks@);
            assert(transactions@.drop_last() =~= before.transactions@);
            lemma_sealed(before, *self, reward_transaction, reward as int);
        }
        Ok(())
    }

    /// Whether `r` resolves in the chain to a payment output of its value
    /// held by `owner`.
    fn resolves_owned(&self, r: &OutputRef, owner: &HashBytes) -> (b: bool)
        ensures
            b == resolves_to_owned(self.committed(), owner@, *r),
    {
        let expected = match r.2 {
            TransactionOutput::ToInput { value, .. } => value,
            TransactionOutput::ToPixel { value, .. } => value,
        };
        match self.find_transaction(&r.0) {
            Some(t) => {
                let outputs = t.get_outputs();
                if (r.1 as usize) < outputs.len() {
                    match outputs[r.1 as usize] {
                        TransactionOutput::ToInput { value, public_key_hash } => value == expected
                            && hashes_equal(&public_key_hash, owner),
                        TransactionOutput::ToPixel { .. } => false,
                    }
                } else {
                    false
                }
            },
            None => false,
        }
    }

    /// The outputs `create_simple_transaction` may spend for `owner`, in
    /// chain order.
    fn payment_candidates_of(&self, owner: &HashBytes) -> (r: Vec<OutputRef>)
        ensures
            r@ == payment_candidates(
                self.committed(),
                self.spec_pending(),
                owner@,
                spendable_refs(self.spec_blocks(), self.all_outputs()),
            ),
    {
        let unspent = self.get_all_unspent_outputs();
        let mut candidates: Vec<OutputRef> = Vec::new();
        let mut i: usize = 0;
        while i < unspent.len()
            invariant
                i <= unspent@.len(),
                candidates@ == payment_candidates(self.committed(), self.transactions@, owner@, unspent@.take(i as int)),
            decreases unspent@.len() - i,
        {
            assert(unspent@.take(i + 1).drop_last() =~= unspent@.take(i as int));
            let item = unspent[i];
            if self.resolves_owned(&item, owner) && !any_spends(&self.transactions, &item.0, item.1)
                && !listed_in(&candidates, &item.0, item.1) {
                candidates.push(item);
            }
            i = i + 1;
        }
        assert(unspent@.take(unspent@.len() as int) =~= unspent@);
        candidates
    }

    /// Signed spends of the first `n` candidates.
    fn sign_inputs(
        &self,
        candidates: &Vec<OutputRef>,
        n: usize,
        public_key: &Vec<u8>,
        private_key: &PrivateKey,
    ) -> (r: Vec<TransactionInput>)
        requires
            n <= candidates@.len(),
            public_key_of(private_key@) == Some(public_key@),
            forall|i: int| 0 <= i < candidates@.len() ==> resolves_to_owned(
                self.committed(),
                sha3_256_of(public_key@),
                #[trigger] candidates@[i],
            ),
        ensures
            r@.len() == n,
            forall|i: int| 0 <= i < n ==> (#[trigger] r@[i] matches TransactionInput::FromOutput {
                transaction_hash,
                output_index,
                public_key: key,
                ..
            } && transaction_hash == candidates@[i].0 && output_index == candidates@[i].1 && key@ == public_key@),
            inputs_value(self.committed(), r@) == Ok::<int, LedgerError>(refs_value(candidates@.take(n as int))),
    {
        let ghost committed = self.committed();
        let mut inputs: Vec<TransactionInput> = Vec::new();
        let mut j: usize = 0;
        assert(inputs@ =~= Seq::<TransactionInput>::empty());
        assert(candidates@.take(0) =~= Seq::<OutputRef>::empty());
        while j < n
            invariant
                committed == self.committed(),
                n <= candidates@.len(),
                j <= n,
                inputs@.len() == j,
                public_key_of(private_key@) == Some(public_key@),
                forall|i: int| 0 <= i < candidates@.len() ==> resolves_to_owned(
                    committed,
                    sha3_256_of(public_key@),
                    #[trigger] candidates@[i],
                ),
                forall|i: int| 0 <= i < j ==> (#[trigger] inputs@[i] matches TransactionInput::FromOutput {
                    transaction_hash,
                    output_index,
                    public_key: key,
                    ..
                } && transaction_hash == candidates@[i].0 && output_index == candidates@[i].1 && key@ == public_key@),
                inputs_value(committed, inputs@) == Ok::<int, LedgerError>(refs_value(candidates@.take(j as int))),
            decreases n - j,
        {
            let (hash, index, output) = candidates[j];
            let signature = match sign_transaction(&hash, index, public_key.as_slice(), private_key) {
                Some(s) => s,
                None => Signature([0u8; 64]),
            };
            let key = copy_range(public_key.as_slice(), 0, public_key.len());
            assert(key@ =~= public_key@);
            let digest = spend_digest(&hash, index, key.as_slice());
            assert(public_key_of(private_key@) == Some(key@) && ecdsa_signature_of(private_key@, digest@)
                == signature.0@);
            let accepted = ecdsa_verify(key.as_slice(), &digest, &signature.0);
            assert(accepted);
            let input = TransactionInput::FromOutput { transaction_hash: hash, output_index: index, public_key: key, signature };
            let ghost before = inputs@;
            inputs.push(input);
            proof {
                assert(resolves_to_owned(committed, sha3_256_of(public_key@), candidates@[j as int]));
                assert(resolve_input(committed, input) == Ok::<int, LedgerError>(output_value(output)));
                assert(inputs@.drop_last() =~= before);
                assert(candidates@.take(j + 1).drop_last() =~= candidates@.take(j as int));
            }
            j = j + 1;
        }
        inputs
    }

    /// Pays `value` to `recipient` from the outputs of the owner of
    /// `private_key`: takes its unspent outputs (those the chain resolves to
    /// it and the pending pool does not already spend, each once) in chain
    /// order until they cover `value + tax`, signs each spend, returns the
    /// change to the sender, leaves `tax` to the miner, and admits the
    /// transaction. It succeeds exactly when the key is valid and the outputs
    /// cover the amount. On failure nothing changes.
    pub fn create_simple_transaction(
        &mut self,
        private_key: &PrivateKey,
        recipient: &HashBytes,
        value: Credits,
        tax: Credits,
    ) -> (r: Result<(), LedgerError>)
        requires
            old(self).wf(),
            value > 0,
            tax >= 0,
        ensures
            final(self).wf(),
            final(self).spec_blocks() == old(self).spec_blocks(),
            final(self).spec_miner() == old(self).spec_miner(),
            final(self).spec_last_block_hash() == old(self).spec_last_block_hash(),
            r is Err ==> *final(self) == *old(self),
            public_key_of(private_key@) is None ==> r == Err::<(), LedgerError>(LedgerError::InvalidPrivateKey),
            public_key_of(private_key@) matches Some(key) ==> {
                let candidates = payment_candidates(
                    old(self).committed(),
                    old(self).spec_pending(),
                    sha3_256_of(key),
                    spendable_refs(old(self).spec_blocks(), old(self).all_outputs()),
                );
                &&& (r is Ok <==> exists|m: int|
                    0 <= m <= candidates.len() && refs_value(#[trigger] candidates.take(m)) >= value + tax)
                &&& (r is Err ==> r == Err::<(), LedgerError>(LedgerError::InsufficientFunds))
                &&& (r is Ok ==> exists|n: int, t: Transaction|
                    covers(candidates, value + tax, n) && final(self).spec_pending() == old(self).spec_pending().push(t)
                        && pays(t, candidates.take(n), key, *recipient, sha3_256_of(key), value as int, tax as int))
            },
    {
        let public_key = match derive_public_key(private_key) {
            Some(k) => k,
            None => {
                return Err(LedgerError::InvalidPrivateKey);
            },
        };
        let sender = sha3_256(public_key.as_slice());
        let candidates = self.payment_candidates_of(&sender);
        proof {
            let all = spendable_refs(self.blocks@, self.all_outputs());
            lemma_spendable_refs(self.blocks@, self.all_outputs());
            lemma_candidates(self.blocks@, self.committed(), self.transactions@, sender@, all);
        }
        let target: i128 = value as i128 + tax as i128;
        let (n, total) = select_outputs(&candidates, target);
        if total < target {
            return Err(LedgerError::InsufficientFunds);
        }
        proof {
            let c = candidates@;
            assert(c.take(0) =~= Seq::<OutputRef>::empty());
            assert(n > 0);
            assert(c.take(n as int).drop_last() =~= c.take(n - 1));
            assert(refs_value(c.take(n - 1)) < target);
        }
        let change = (total - target) as i64;
        let inputs = self.sign_inputs(&candidates, n, &public_key, private_key);
        let outputs = vec![
            TransactionOutput::ToInput { value, public_key_hash: *recipient },
            TransactionOutput::ToInput { value: change, public_key_hash: sender },
        ];
        proof {
            assert(outputs@.drop_last().drop_last() =~= Seq::<TransactionOutput>::empty());
            assert(outputs_value(outputs@.drop_last().drop_last()) == 0);
            assert(outputs_value(outputs@.drop_last()) == value);
            assert(outputs_value(outputs@) == value + change);
        }
        let ghost spent_inputs = inputs@;
        let transaction = match Transaction::try_new(self, inputs, outputs, 0) {
            Ok(t) => t,
            Err(e) => {
                return Err(e);
            },
        };
        let ghost t = transaction;
        assert(t.spec_balance() == tax);
        assert(pays(t, candidates@.take(n as int), public_key@, *recipient, sender@, value as int, tax as int));
        proof {
            assert forall|j: int| 0 <= j < t.spec_inputs().len() implies !#[trigger] input_conflicts(
                self.blocks@,
                self.transactions@,
                t.spec_inputs(),
                j,
            ) by {
                assert(spendable(self.blocks@, candidates@[j]));
                assert forall|i: int| 0 <= i < j implies !input_spends(
                    #[trigger] t.spec_inputs()[i],
                    candidates@[j].0@,
                    candidates@[j].1,
                ) by {
                    assert(!(candidates@[i].0@ == candidates@[j].0@ && candidates@[i].1 == candidates@[j].1));
                }
            }
            assert(!double_spends(self.blocks@, self.transactions@, t));
            assert forall|j: int| 0 <= j < t.spec_outputs().len() implies pixel_price_met(
                self.committed(),
                buyer_of(t),
                #[trigger] t.spec_outputs()[j],
            ) by {
                assert(t.spec_outputs()[j] is ToInput);
            }
        }
        match self.new_transaction(transaction) {
            Ok(()) => Ok(()),
            Err(e) => Err(e),
        }
    }

    /// Admits a transaction to the pending pool. Every input must still
    /// resolve against the chain (an existing payment output, owned by the
    /// input's public key, with a valid signature); then no input may spend an
    /// output that the chain, the pool or an earlier input of its own already
    /// spends; then every pixel purchase must pay the pixel's price given its
    /// distinct earlier owners. The ledger is unchanged on failure.
    pub fn new_transaction(&mut self, transaction: Transaction) -> (r: Result<(), LedgerError>)
        requires
            old(self).wf(),
        ensures
            final(self).wf(),
            match inputs_value(old(self).committed(), transaction.spec_inputs()) {
                Err(e) => r == Err::<(), LedgerError>(e),
                Ok(_) => if double_spends(old(self).spec_blocks(), old(self).spec_pending(), transaction) {
                    r == Err::<(), LedgerError>(LedgerError::DoubleSpend)
                } else if !pixel_prices_met(old(self).committed(), transaction) {
                    r == Err::<(), LedgerError>(LedgerError::PixelPriceTooLow)
                } else {
                    r is Ok
                },
            },
            r is Err ==> *final(self) == *old(self),
            r is Ok ==> final(self).spec_pending() == old(self).spec_pending().push(transaction),
            final(self).spec_blocks() == old(self).spec_blocks(),
            final(self).spec_miner() == old(self).spec_miner(),
            final(self).spec_last_block_hash() == old(self).spec_last_block_hash(),
    {
        let inputs = transaction.get_inputs();
        let ghost committed = self.committed();
        let mut j: usize = 0;
        while j < inputs.len()
            invariant
                self.wf(),
                inputs@ == transaction.spec_inputs(),
                committed == self.committed(),
                j <= inputs@.len(),
                inputs_value(committed, inputs@.take(j as int)) is Ok,
            decreases inputs@.len() - j,
        {
            assert(inputs@.take(j + 1).drop_last() =~= inputs@.take(j as int));
            match resolve_input_value(self, &inputs[j]) {
                Ok(_) => {},
                Err(e) => {
                    proof {
                        lemma_inputs_value_error(committed, inputs@, j as int);
                    }
                    return Err(e);
                },
            }
            j = j + 1;
        }
        assert(inputs@.take(inputs@.len() as int) =~= inputs@);
        let mut j: usize = 0;
        while j < inputs.len()
            invariant
                self.wf(),
                inputs@ == transaction.spec_inputs(),
                inputs_value(self.committed(), inputs@) is Ok,
                j <= inputs@.len(),
                forall|i: int| 0 <= i < j ==> !#[trigger] input_conflicts(self.blocks@, self.transactions@, inputs@, i),
            decreases inputs@.len() - j,
        {
            match &inputs[j] {
                TransactionInput::FromOutput { transaction_hash, output_index, .. } => {
                    if self.is_output_spent(transaction_hash, *output_index)
                        || any_spends(&self.transactions, transaction_hash, *output_index)
                        || spent_before(inputs, j, transaction_hash, *output_index) {
                        assert(input_conflicts(self.blocks@, self.transactions@, inputs@, j as int));
                        return Err(LedgerError::DoubleSpend);
                    }
                },
                TransactionInput::FromReward { .. } => {},
            }
            j = j + 1;
        }
        if !pixel_prices_paid(self, &transaction) {
            return Err(LedgerError::PixelPriceTooLow);
        }
        self.transactions.push(transaction);
        proof {
            reveal(Blockchain::wf);
        }
        Ok(())
    }

    /// The unspent balance of the owner of `peer_public_key_hash`: the sum of
    /// its payment outputs that no committed input spends.
    pub fn get_peer_credits(&self, peer_public_key_hash: &HashBytes) -> (r: Credits)
        requires
            self.wf(),
        ensures
            r == self.unspent_total(Some(*peer_public_key_hash)),
    {
        proof {
            reveal(Blockchain::wf);
        }
        let ghost owner = Some(*peer_public_key_hash);
        let ghost blocks = self.blocks@;
        let mut total: i64 = 0;
        let mut b: usize = 0;
        while b < self.blocks.len()
            invariant
                self.output_volume == volume(self.all_outputs()),
                owner == Some(*peer_public_key_hash),
                blocks == self.blocks@,
                b <= blocks.len(),
                total == unspent_sum(blocks, owner, transactions_output_refs(chain_transactions(blocks.take(b as int)))),
            decreases blocks.len() - b,
        {
            let transactions = self.blocks[b].get_transactions();
            let ghost before = chain_transactions(blocks.take(b as int));
            let mut k: usize = 0;
            while k < transactions.len()
                invariant
                    self.output_volume == volume(self.all_outputs()),
                    owner == Some(*peer_public_key_hash),
                    blocks == self.blocks@,
                    b < blocks.len(),
                    transactions@ == blocks[b as int].spec_transactions(),
                    before == chain_transactions(blocks.take(b as int)),
                    k <= transactions@.len(),
                    total == unspent_sum(blocks, owner, transactions_output_refs(before + transactions@.take(k as int))),
                decreases transactions@.len() - k,
            {
                let t = &transactions[k];
                let hash = t.get_hash();
                let outputs = t.get_outputs();
                proof {
                    use_type_invariant(t);
                }
                let ghost done = transactions_output_refs(before + transactions@.take(k as int));
                let mut j: usize = 0;
                while j < outputs.len()
                    invariant
                        self.output_volume == volume(self.all_outputs()),
                        owner == Some(*peer_public_key_hash),
                        blocks == self.blocks@,
                        b < blocks.len(),
                        k < transactions@.len(),
                        transactions@ == blocks[b as int].spec_transactions(),
                        before == chain_transactions(blocks.take(b as int)),
                        *t == transactions@[k as int],
                        outputs@ == t.spec_outputs(),
                        outputs@.len() <= u32::MAX,
                        *hash == t.spec_hash(),
                        done == transactions_output_refs(before + transactions@.take(k as int)),
                        j <= outputs@.len(),
                        total == unspent_sum(blocks, owner, done + output_refs(*t).take(j as int)),
                    decreases outputs@.len() - j,
                {
                    let ghost item = output_refs(*t)[j as int];
                    let ghost next = done + output_refs(*t).take(j + 1);
                    proof {
                        assert(next.drop_last() =~= done + output_refs(*t).take(j as int));
                        assert(next.last() == item);
                        assert(item.0 == *hash && item.1 == j as u32 && item.2 == outputs@[j as int]);
                        assert(unspent_sum(blocks, owner, next) == total + unspent_value(blocks, owner, item));
                        lemma_prefix_volume(blocks, b as int, k as int, j + 1);
                        lemma_unspent_bounded(blocks, owner, next);
                        assert(volume(next) <= self.output_volume);
                    }
                    match outputs[j] {
                        TransactionOutput::ToInput { value, public_key_hash } => {
                            let owned = hashes_equal(&public_key_hash, peer_public_key_hash);
                            let spent = self.is_output_spent(hash, j as u32);
                            assert(spendable(blocks, item) == !spent);
                            if owned && !spent {
                                assert(unspent_value(blocks, owner, item) == value);
                                total = total + value;
                            } else {
                                assert(unspent_value(blocks, owner, item) == 0);
                            }
                        },
                        TransactionOutput::ToPixel { .. } => {},
                    }
                    j = j + 1;
                }
                assert(output_refs(*t).take(outputs@.len() as int) =~= output_refs(*t));
                assert((before + transactions@.take(k + 1)).drop_last() =~= before + transactions@.take(k as int));
                assert((before + transactions@.take(k + 1)).last() == *t);
                k = k + 1;
            }
            assert(transactions@.take(transactions@.len() as int) =~= transactions@);
            assert(blocks.take(b + 1).drop_last() =~= blocks.take(b as int));
            b = b + 1;
        }
        assert(blocks.take(blocks.len() as int) =~= blocks);
        total
    }

    /// Every payment output that no committed input spends, in chain order.
    pub fn get_all_unspent_outputs(&self) -> (r: Vec<OutputRef>)
        ensures
            r@ == spendable_refs(self.spec_blocks(), self.all_outputs()),
    {
        let ghost blocks = self.blocks@;
        let mut found: Vec<OutputRef> = Vec::new();
        let mut b: usize = 0;
        while b < self.blocks.len()
            invariant
                blocks == self.blocks@,
                b <= blocks.len(),
                found@ == spendable_refs(blocks, transactions_output_refs(chain_transactions(blocks.take(b as int)))),
            decreases blocks.len() - b,
        {
            let transactions = self.blocks[b].get_transactions();
            let ghost before = chain_transactions(blocks.take(b as int));
            let mut k: usize = 0;
            while k < transactions.len()
                invariant
                    blocks == self.blocks@,
                    b < blocks.len(),
                    transactions@ == blocks[b as int].spec_transactions(),
                    before == chain_transactions(blocks.take(b as int)),
                    k <= transactions@.len(),
                    found@ == spendable_refs(blocks, transactions_output_refs(before + transactions@.take(k as int))),
                decreases transactions@.len() - k,
            {
                let t = &transactions[k];
                let hash = t.get_hash();
                let outputs = t.get_outputs();
                proof {
                    use_type_invariant(t);
                }
                let ghost done = transactions_output_refs(before + transactions@.take(k as int));
                let mut j: usize = 0;
                while j < outputs.len()
                    invariant
                        blocks == self.blocks@,
                        *t == transactions@[k as int],
                        outputs@ == t.spec_outputs(),
                        outputs@.len() <= u32::MAX,
                        *hash == t.spec_hash(),
                        j <= outputs@.len(),
                        found@ == spendable_refs(blocks, done + output_refs(*t).take(j as int)),
                    decreases outputs@.len() - j,
                {
                    let ghost item = output_refs(*t)[j as int];
                    let ghost next = done + output_refs(*t).take(j + 1);
                    assert(next.drop_last() =~= done + output_refs(*t).take(j as int));
                    assert(next.last() == item);
                    assert(item.0 == *hash && item.1 == j as u32 && item.2 == outputs@[j as int]);
                    let output = outputs[j];
                    match output {
                        TransactionOutput::ToInput { .. } => {
                            if !self.is_output_spent(hash, j as u32) {
                                found.push((*hash, j as u32, output));
                            }
                        },
                        TransactionOutput::ToPixel { .. } => {},
                    }
                    j = j + 1;
                }
                assert(output_refs(*t).take(outputs@.len() as int) =~= output_refs(*t));
                assert((before + transactions@.take(k + 1)).drop_last() =~= before + transactions@.take(k as int));
                assert((before + transactions@.take(k + 1)).last() == *t);
                k = k + 1;
            }
            assert(transactions@.take(transactions@.len() as int) =~= transactions@);
            assert(blocks.take(b + 1).drop_last() =~= blocks.take(b as int));
            b = b + 1;
        }
        assert(blocks.take(blocks.len() as int) =~= blocks);
        found
    }

    /// The first committed transaction with the given hash.
    pub fn find_transaction(&self, transaction_hash: &HashBytes) -> (r: Option<&Transaction>)
        ensures
            match find_in(self.committed(), transaction_hash@) {
                Some(t) => r matches Some(x) && *x == t,
                None => r is None,
            },
    {
        let mut b: usize = 0;
        while b < self.blocks.len()
            invariant
                b <= self.blocks@.len(),
                find_in(chain_transactions(self.blocks@.take(b as int)), transaction_hash@) is None,
            decreases self.blocks@.len() - b,
        {
            let ghost before = chain_transactions(self.blocks@.take(b as int));
            let transactions = self.blocks[b].get_transactions();
            let mut k: usize = 0;
            while k < transactions.len()
                invariant
                    b < self.blocks@.len(),
                    transactions@ == self.blocks@[b as int].spec_transactions(),
                    k <= transactions@.len(),
                    before == chain_transactions(self.blocks@.take(b as int)),
                    find_in(before + transactions@.take(k as int), transaction_hash@) is None,
                decreases transactions@.len() - k,
            {
                let t = &transactions[k];
                let ghost next = before + transactions@.take(k + 1);
                assert(next.drop_last() =~= before + transactions@.take(k as int));
                if hashes_equal(t.get_hash(), transaction_hash) {
                    assert(find_in(next, transaction_hash@) == Some(*t));
                    proof {
                        lemma_chain_split(self.blocks@, b as int);
                        let rest = transactions@.skip(k + 1) + chain_transactions(
                            self.blocks@.skip(b + 1),
                        );
                        assert(self.committed() =~= next + rest);
                        lemma_find_in_append(next, rest, transaction_hash@);
                    }
                    return Some(t);
                }
                k = k + 1;
            }
            assert(self.blocks@.take(b + 1).drop_last() =~= self.blocks@.take(b as int));
            assert(transactions@.take(transactions@.len() as int) =~= transactions@);
            b = b + 1;
        }
        assert(self.blocks@.take(self.blocks@.len() as int) =~= self.blocks@);
        None
    }
}

/// Whether some input of `t` spends output `output_index` of `transaction_hash`.
pub fn spends_output(t: &Transaction, transaction_hash: &HashBytes, output_index: u32) -> (r: bool)
    ensures
        r == transaction_spends(*t, transaction_hash@, output_index),
{
    let inputs = t.get_inputs();
    let mut j: usize = 0;
    while j < inputs.len()
        invariant
            inputs@ == t.spec_inputs(),
            j <= inputs@.len(),
            forall|i: int| 0 <= i < j ==> !input_spends(#[trigger] inputs@[i], transaction_hash@, output_index),
        decreases inputs@.len() - j,
    {
        match &inputs[j] {
            TransactionInput::FromOutput { transaction_hash: h, output_index: i, .. } => {
                if *i == output_index && hashes_equal(h, transaction_hash) {
                    assert(input_spends(inputs@[j as int], transaction_hash@, output_index));
                    return true;
                }
            },
            TransactionInput::FromReward { .. } => {},
        }
        j = j + 1;
    }
    false
}

/// Whether some transaction of `transactions` spends output `output_index` of `transaction_hash`.
pub fn any_spends(transactions: &Vec<Transaction>, transaction_hash: &HashBytes, output_index: u32) -> (r: bool)
    ensures
        r == spent_by(transactions@, transaction_hash@, output_index),
{
    let mut k: usize = 0;
    while k < transactions.len()
        invariant
            k <= transactions@.len(),
            forall|i: int| 0 <= i < k ==> !transaction_spends(#[trigger] transactions@[i], transaction_hash@, output_index),
        decreases transactions@.len() - k,
    {
        if spends_output(&transactions[k], transaction_hash, output_index) {
            return true;
        }
        k = k + 1;
    }
    false
}

/// Whether input `j` spends an output already spent by the chain, by a
/// pending transaction, or by an earlier input of the same transaction.
pub open spec fn input_conflicts(
    blocks: Seq<Block>,
    pending: Seq<Transaction>,
    inputs: Seq<TransactionInput>,
    j: int,
) -> bool {
    match inputs[j] {
        TransactionInput::FromOutput { transaction_hash, output_index, .. } =>
            spent_in_chain(blocks, transaction_hash@, output_index) || spent_by(
            pending,
            transaction_hash@,
            output_index,
        ) || exists|i: int| 0 <= i < j && input_spends(#[trigger] inputs[i], transaction_hash@, output_index),
        TransactionInput::FromReward { .. } => false,
    }
}

/// Whether accepting `t` would spend some output twice.
pub open spec fn double_spends(blocks: Seq<Block>, pending: Seq<Transaction>, t: Transaction) -> bool {
    exists|j: int| 0 <= j < t.spec_inputs().len() && #[trigger] input_conflicts(blocks, pending, t.spec_inputs(), j)
}

/// The sum of the values of referenced outputs.
pub open spec fn refs_value(s: Seq<OutputRef>) -> int
    decreases s.len(),
{
    if s.len() == 0 {
        0
    } else {
        refs_value(s.drop_last()) + output_value(s.last().2)
    }
}

/// Whether `r` names, by its reference, a payment output of value `r.2`
/// that the chain resolves and that `owner` holds.
pub open spec fn resolves_to_owned(committed: Seq<Transaction>, owner: Seq<u8>, r: OutputRef) -> bool {
    &&& find_in(committed, r.0@) matches Some(t)
    &&& (r.1 as int) < t.spec_outputs().len()
    &&& t.spec_outputs()[r.1 as int] matches TransactionOutput::ToInput { value, public_key_hash }
    &&& public_key_hash@ == owner
    &&& value as int == output_value(r.2)
}

/// Whether some reference of `s` names output `index` of `hash`.
pub open spec fn listed(s: Seq<OutputRef>, hash: Seq<u8>, index: u32) -> bool {
    exists|i: int| 0 <= i < s.len() && (#[trigger] s[i]).0@ == hash && s[i].1 == index
}

/// The outputs of `s` that the chain resolves as held by `owner`, that no
/// pending transaction spends, each reference once.
pub open spec fn payment_candidates(
    committed: Seq<Transaction>,
    pending: Seq<Transaction>,
    owner: Seq<u8>,
    s: Seq<OutputRef>,
) -> Seq<OutputRef>
    decreases s.len(),
{
    if s.len() == 0 {
        Seq::empty()
    } else {
        let r = s.last();
        let rest = payment_candidates(committed, pending, owner, s.drop_last());
        if resolves_to_owned(committed, owner, r) && !spent_by(pending, r.0@, r.1) && !listed(rest, r.0@, r.1) {
            rest.push(r)
        } else {
            rest
        }
    }
}

pub proof fn lemma_spendable_refs(blocks: Seq<Block>, s: Seq<OutputRef>)
    ensures
        forall|i: int| 0 <= i < spendable_refs(blocks, s).len() ==> spendable(blocks, #[trigger] spendable_refs(blocks, s)[i]),
    decreases s.len(),
{
    if s.len() > 0 {
        lemma_spendable_refs(blocks, s.drop_last());
        let rest = spendable_refs(blocks, s.drop_last());
        if spendable(blocks, s.last()) {
            let all = rest.push(s.last());
            assert(spendable_refs(blocks, s) == all);
            assert forall|i: int| 0 <= i < all.len() implies spendable(blocks, #[trigger] all[i]) by {
                if i < rest.len() {
                    assert(all[i] == rest[i]);
                }
            }
        } else {
            assert(spendable_refs(blocks, s) == rest);
        }
    }
}

/// Every candidate is spendable, resolves as held by the owner, is not
/// spent by the pool, and no two candidates name the same output.
pub proof fn lemma_candidates(
    blocks: Seq<Block>,
    committed: Seq<Transaction>,
    pending: Seq<Transaction>,
    owner: Seq<u8>,
    s: Seq<OutputRef>,
)
    requires
        forall|k: int| 0 <= k < s.len() ==> spendable(blocks, #[trigger] s[k]),
    ensures
        ({
            let c = payment_candidates(committed, pending, owner, s);
            &&& forall|i: int| 0 <= i < c.len() ==> spendable(blocks, #[trigger] c[i]) && resolves_to_owned(
                committed,
                owner,
                c[i],
            ) && !spent_by(pending, c[i].0@, c[i].1)
            &&& forall|i: int, j: int| 0 <= i < j < c.len() ==> !((#[trigger] c[i]).0@ == (#[trigger] c[j]).0@ && c[i].1 == c[j].1)
        }),
    decreases s.len(),
{
    if s.len() > 0 {
        let prefix = s.drop_last();
        assert forall|k: int| 0 <= k < prefix.len() implies spendable(blocks, #[trigger] prefix[k]) by {
            assert(prefix[k] == s[k]);
        }
        lemma_candidates(blocks, committed, pending, owner, prefix);
        let rest = payment_candidates(committed, pending, owner, prefix);
        let r = s.last();
        assert(r == s[s.len() - 1]);
        if resolves_to_owned(committed, owner, r) && !spent_by(pending, r.0@, r.1) && !listed(rest, r.0@, r.1) {
            let c = rest.push(r);
            assert(payment_candidates(committed, pending, owner, s) == c);
            assert forall|i: int| 0 <= i < c.len() implies spendable(blocks, #[trigger] c[i]) && resolves_to_owned(
                committed,
                owner,
                c[i],
            ) && !spent_by(pending, c[i].0@, c[i].1) by {
                if i < rest.len() {
                    assert(c[i] == rest[i]);
                }
            }
            assert forall|i: int, j: int| 0 <= i < j < c.len() implies !((#[trigger] c[i]).0@ == (#[trigger] c[j]).0@
                && c[i].1 == c[j].1) by {
                assert(c[i] == rest[i]);
                if j < rest.len() {
                    assert(c[j] == rest[j]);
                } else {
                    assert(c[j] == r);
                    if c[i].0@ == r.0@ && c[i].1 == r.1 {
                        assert(listed(rest, r.0@, r.1));
                    }
                }
            }
        } else {
            assert(payment_candidates(committed, pending, owner, s) == rest);
        }
    }
}

/// Whether the first `n` candidates are the shortest prefix worth `target`.
pub open spec fn covers(s: Seq<OutputRef>, target: int, n: int) -> bool {
    &&& 0 <= n <= s.len()
    &&& refs_value(s.take(n)) >= target
    &&& forall|m: int| 0 <= m < n ==> refs_value(#[trigger] s.take(m)) < target
}

/// Whether `t` spends exactly `selected`, pays `value` to `recipient` and
/// returns the change beyond `value + tax` to `sender`.
pub open spec fn pays(
    t: Transaction,
    selected: Seq<OutputRef>,
    public_key: Seq<u8>,
    recipient: HashBytes,
    sender: Seq<u8>,
    value: int,
    tax: int,
) -> bool {
    &&& t.spec_inputs().len() == selected.len()
    &&& forall|i: int| 0 <= i < selected.len() ==> (#[trigger] t.spec_inputs()[i] matches TransactionInput::FromOutput {
        transaction_hash,
        output_index,
        public_key: key,
        ..
    } && transaction_hash == selected[i].0 && output_index == selected[i].1 && key@ == public_key)
    &&& t.spec_outputs().len() == 2
    &&& t.spec_outputs()[0] == (TransactionOutput::ToInput { value: value as i64, public_key_hash: recipient })
    &&& t.spec_outputs()[1] matches TransactionOutput::ToInput { value: change, public_key_hash }
        && change == refs_value(selected) - value - tax && public_key_hash@ == sender
    &&& t.spec_lock_time() == 0
    &&& t.spec_balance() == tax
}

/// The greedy choice among `candidates`: the shortest prefix worth `target`,
/// or all of them when none is.
fn select_outputs(candidates: &Vec<OutputRef>, target: i128) -> (r: (usize, i128))
    ensures
        r.0 <= candidates@.len(),
        r.1 == refs_value(candidates@.take(r.0 as int)),
        r.1 >= target ==> covers(candidates@, target as int, r.0 as int),
        r.1 < target ==> forall|m: int| 0 <= m <= candidates@.len() ==> refs_value(#[trigger] candidates@.take(m)) < target,
{
    let mut total: i128 = 0;
    let mut i: usize = 0;
    while total < target && i < candidates.len()
        invariant
            i <= candidates@.len(),
            total == refs_value(candidates@.take(i as int)),
            -(i as int) * 0x8000_0000_0000_0000 <= total <= (i as int) * 0x8000_0000_0000_0000,
            forall|m: int| 0 <= m < i ==> refs_value(#[trigger] candidates@.take(m)) < target,
        decreases candidates@.len() - i,
    {
        assert(candidates@.take(i + 1).drop_last() =~= candidates@.take(i as int));
        let v = match candidates[i].2 {
            TransactionOutput::ToInput { value, .. } => value,
            TransactionOutput::ToPixel { value, .. } => value,
        };
        total = total + v as i128;
        i = i + 1;
    }
    if total < target {
        assert(candidates@.take(i as int) =~= candidates@.take(candidates@.len() as int));
    }
    (i, total)
}

/// The sum of the balances of a sequence of transactions.
pub open spec fn pending_balance(s: Seq<Transaction>) -> int
    decreases s.len(),
{
    if s.len() == 0 {
        0
    } else {
        pending_balance(s.drop_last()) + s.last().spec_balance()
    }
}

/// The reward of the next block: the base subsidy plus the pending pool's slack.
pub open spec fn block_reward(pending: Seq<Transaction>) -> int {
    BASE_REWARD + pending_balance(pending)
}

/// The total output value of a transaction in magnitude.
fn transaction_volume(t: &Transaction) -> (r: i128)
    ensures
        r == volume(output_refs(*t)),
        0 <= r <= 0x1_0000_0000 * 0x8000_0000_0000_0000,
{
    proof {
        use_type_invariant(t);
    }
    let outputs = t.get_outputs();
    let mut total: i128 = 0;
    let mut j: usize = 0;
    while j < outputs.len()
        invariant
            outputs@ == t.spec_outputs(),
            outputs@.len() <= u32::MAX,
            j <= outputs@.len(),
            total == volume(output_refs(*t).take(j as int)),
            0 <= total <= (j as int) * 0x8000_0000_0000_0000,
        decreases outputs@.len() - j,
    {
        assert(output_refs(*t).take(j + 1).drop_last() =~= output_refs(*t).take(j as int));
        let v = match outputs[j] {
            TransactionOutput::ToInput { value, .. } => value,
            TransactionOutput::ToPixel { value, .. } => value,
        };
        let magnitude: i128 = if v < 0 { -(v as i128) } else { v as i128 };
        total = total + magnitude;
        j = j + 1;
    }
    assert(output_refs(*t).take(outputs@.len() as int) =~= output_refs(*t));
    total
}

/// Once a transaction spending an output is pending, every other
/// transaction spending the same output is a double spend, so
/// `new_transaction` refuses it.
pub proof fn lemma_double_spend_refused(
    blocks: Seq<Block>,
    pending: Seq<Transaction>,
    first: Transaction,
    second: Transaction,
    hash: Seq<u8>,
    index: u32,
)
    requires
        transaction_spends(first, hash, index),
        transaction_spends(second, hash, index),
    ensures
        double_spends(blocks, pending.push(first), second),
{
    let j = choose|j: int| 0 <= j < second.spec_inputs().len() && input_spends(#[trigger] second.spec_inputs()[j], hash, index);
    let after = pending.push(first);
    assert(after[pending.len() as int] == first);
    assert(spent_by(after, hash, index));
    assert(input_conflicts(blocks, after, second.spec_inputs(), j));
}

/// Whether some reference of `s` names output `index` of `hash`.
fn listed_in(s: &Vec<OutputRef>, hash: &HashBytes, index: u32) -> (r: bool)
    ensures
        r == listed(s@, hash@, index),
{
    let mut i: usize = 0;
    while i < s.len()
        invariant
            i <= s@.len(),
            forall|m: int| 0 <= m < i ==> !((#[trigger] s@[m]).0@ == hash@ && s@[m].1 == index),
        decreases s@.len() - i,
    {
        if s[i].1 == index && hashes_equal(&s[i].0, hash) {
            return true;
        }
        i = i + 1;
    }
    false
}

/// Whether one of the first `j` inputs spends output `index` of `hash`.
fn spent_before(inputs: &[TransactionInput], j: usize, hash: &HashBytes, index: u32) -> (r: bool)
    requires
        j <= inputs@.len(),
    ensures
        r == exists|i: int| 0 <= i < j && input_spends(#[trigger] inputs@[i], hash@, index),
{
    let mut i: usize = 0;
    while i < j
        invariant
            i <= j <= inputs@.len(),
            forall|m: int| 0 <= m < i ==> !input_spends(#[trigger] inputs@[m], hash@, index),
        decreases j - i,
    {
        match &inputs[i] {
            TransactionInput::FromOutput { transaction_hash, output_index, .. } => {
                if *output_index == index && hashes_equal(transaction_hash, hash) {
                    assert(input_spends(inputs@[i as int], hash@, index));
                    return true;
                }
            },
            TransactionInput::FromReward { .. } => {},
        }
        i = i + 1;
    }
    false
}

/// Whether `proof` follows `last_proof`: the SHA3-256 of both, little-endian,
/// starts with a zero byte.
pub open spec fn proof_valid(last_proof: Proof, proof: Proof) -> bool {
    sha3_256_of(u128_bytes(last_proof) + u128_bytes(proof))[0] == 0
}

/// Relies on rayon's `into_par_iter` over `0..u128::MAX` and `find_any`:
/// some candidate that `validate_proof` accepts, `None` when none is.
#[verifier::external_body]
fn search_proof(last_proof: Proof) -> (r: Option<Proof>)
    ensures
        r matches Some(p) ==> proof_valid(last_proof, p),
        r is None ==> forall|p: Proof| p < u128::MAX ==> !proof_valid(last_proof, p),
{
    let candidates = rayon::iter::IntoParallelIterator::into_par_iter(0..u128::MAX);
    rayon::iter::ParallelIterator::find_any(candidates, |p| Blockchain::validate_proof(&last_proof, p))
}

proof fn lemma_wf_height(chain: Blockchain)
    requires
        chain.wf(),
    ensures
        chain.blocks@.len() >= 1,
        height_of(chain.blocks@.last().spec_transactions(), chain.blocks@.last().spec_previous_hash())
            == Ok::<u64, LedgerError>((chain.blocks@.len() - 1) as u64),
{
    reveal(Blockchain::wf);
    assert(chain.blocks@.last() == chain.blocks@[chain.blocks@.len() - 1]);
}

proof fn lemma_wf_volume(chain: Blockchain)
    requires
        chain.wf(),
    ensures
        chain.output_volume >= 0,
{
    reveal(Blockchain::wf);
    lemma_volume_nonneg(chain.all_outputs());
}

/// The outputs a sealed block adds: the pending pool's and the reward's.
proof fn lemma_sealed_volume(
    before: Seq<Block>,
    after: Seq<Block>,
    pending: Seq<Transaction>,
    reward_tx: Transaction,
    reward: int,
)
    requires
        after.len() == before.len() + 1,
        after.drop_last() == before,
        after.last().spec_transactions() == pending.push(reward_tx),
        0 <= reward <= i64::MAX,
        reward_tx.spec_outputs().len() == 1,
        output_value(reward_tx.spec_outputs()[0]) == reward,
    ensures
        volume(transactions_output_refs(chain_transactions(after))) == volume(
            transactions_output_refs(chain_transactions(before)),
        ) + volume(transactions_output_refs(pending)) + reward,
{
    let txs = after.last().spec_transactions();
    assert(chain_transactions(after) == chain_transactions(before) + txs);
    lemma_refs_append(chain_transactions(before), txs);
    assert(txs.drop_last() =~= pending);
    assert(transactions_output_refs(txs) == transactions_output_refs(pending) + output_refs(reward_tx));
    lemma_volume_append(transactions_output_refs(chain_transactions(before)), transactions_output_refs(txs));
    lemma_volume_append(transactions_output_refs(pending), output_refs(reward_tx));
    assert(output_refs(reward_tx).drop_last() =~= Seq::<OutputRef>::empty());
    assert(volume(output_refs(reward_tx).drop_last()) == 0);
    assert(output_refs(reward_tx).last().2 == reward_tx.spec_outputs()[0]);
    assert(volume(output_refs(reward_tx)) == reward);
}

/// Appending a block that seals the pending pool and a reward transaction
/// keeps the ledger well formed.
/// Hashes and predecessor links stay right when the new block names the old head.
proof fn lemma_sealed_links(
    before: Seq<Block>,
    before_hashes: Seq<HashBytes>,
    after: Seq<Block>,
    after_hashes: Seq<HashBytes>,
)
    requires
        before.len() >= 1,
        before_hashes.len() == before.len(),
        after.len() == before.len() + 1,
        after_hashes == before_hashes.push(after_hashes.last()),
        forall|i: int| 0 <= i < before.len() ==> after[i] == #[trigger] before[i],
        forall|i: int| 0 <= i < before.len() ==> (#[trigger] before_hashes[i])@ == before[i].spec_hash(),
        forall|i: int| 1 <= i < before.len() ==> (#[trigger] before[i]).spec_previous_hash()
            == Some(before_hashes[i - 1]),
        after_hashes.last()@ == after.last().spec_hash(),
        after.last().spec_previous_hash() == Some(before_hashes.last()),
    ensures
        forall|i: int| 0 <= i < after.len() ==> (#[trigger] after_hashes[i])@ == after[i].spec_hash(),
        forall|i: int| 1 <= i < after.len() ==> (#[trigger] after[i]).spec_previous_hash()
            == Some(after_hashes[i - 1]),
{
    assert forall|i: int| 0 <= i < after.len() implies (#[trigger] after_hashes[i])@ == after[i].spec_hash() by {
        if i < before.len() {
            assert(after_hashes[i] == before_hashes[i]);
            assert(after[i] == before[i]);
        }
    }
    assert forall|i: int| 1 <= i < after.len() implies (#[trigger] after[i]).spec_previous_hash()
        == Some(after_hashes[i - 1]) by {
        assert(after_hashes[i - 1] == before_hashes[i - 1]);
        if i < before.len() {
            assert(after[i] == before[i]);
        }
    }
}

/// Heights stay those of the positions when the new block claims the next one.
proof fn lemma_sealed_heights(before: Seq<Block>, after: Seq<Block>)
    requires
        after.len() == before.len() + 1,
        forall|i: int| 0 <= i < before.len() ==> after[i] == #[trigger] before[i],
        forall|i: int| 0 <= i < before.len() ==> height_of(
            (#[trigger] before[i]).spec_transactions(),
            before[i].spec_previous_hash(),
        ) == Ok::<u64, LedgerError>(i as u64),
        after.last().spec_transactions().len() > 0,
        after.last().spec_transactions().last().spec_inputs().len() > 0,
        after.last().spec_transactions().last().spec_inputs()[0] == (TransactionInput::FromReward {
            height: before.len() as u64,
            value: after.last().spec_transactions().last().spec_inputs()[0]->FromReward_value,
        }),
    ensures
        forall|i: int| 0 <= i < after.len() ==> height_of(
            (#[trigger] after[i]).spec_transactions(),
            after[i].spec_previous_hash(),
        ) == Ok::<u64, LedgerError>(i as u64),
{
    reveal(height_of);
    assert forall|i: int| 0 <= i < after.len() implies height_of(
        (#[trigger] after[i]).spec_transactions(),
        after[i].spec_previous_hash(),
    ) == Ok::<u64, LedgerError>(i as u64) by {
        if i < before.len() {
            assert(after[i] == before[i]);
        } else {
            assert(after[i] == after.last());
        }
    }
}

#[verifier::rlimit(100)]
proof fn lemma_sealed(before: Blockchain, after: Blockchain, reward_tx: Transaction, reward: int)
    requires
        before.wf(),
        after.blocks@.len() == before.blocks@.len() + 1,
        after.blocks@.drop_last() == before.blocks@,
        after.blocks@.last().spec_transactions() == before.transactions@.push(reward_tx),
        after.blocks@.last().spec_previous_hash() == Some(before.last_block_hash),
        after.block_hashes@ == before.block_hashes@.push(after.last_block_hash),
        after.last_block_hash@ == after.blocks@.last().spec_hash(),
        after.output_volume == before.output_volume + volume(transactions_output_refs(before.transactions@))
            + reward,
        0 <= reward <= i64::MAX,
        reward_tx.spec_outputs() == seq![
            TransactionOutput::ToInput { value: reward as i64, public_key_hash: before.miner_public_key_hash },
        ],
        reward_tx.spec_inputs() == seq![
            TransactionInput::FromReward { height: before.blocks@.len() as u64, value: reward as i64 },
        ],
    ensures
        after.wf(),
{
    reveal(Blockchain::wf);
    let blocks = after.blocks@;
    let n = before.blocks@.len();
    lemma_sealed_volume(before.blocks@, blocks, before.transactions@, reward_tx, reward);
    assert(forall|i: int| 0 <= i < n ==> blocks[i] == #[trigger] before.blocks@[i]) by {
        assert forall|i: int| 0 <= i < n implies blocks[i] == #[trigger] before.blocks@[i] by {
            assert(blocks.drop_last()[i] == blocks[i]);
        }
    }
    lemma_sealed_heights(before.blocks@, blocks);
    lemma_sealed_links(before.blocks@, before.block_hashes@, blocks, after.block_hashes@);
}

pub proof fn lemma_refs_append(a: Seq<Transaction>, b: Seq<Transaction>)
    ensures
        transactions_output_refs(a + b) == transactions_output_refs(a) + transactions_output_refs(b),
    decreases b.len(),
{
    if b.len() == 0 {
        assert(a + b =~= a);
        assert(transactions_output_refs(a) + transactions_output_refs(b) =~= transactions_output_refs(a));
    } else {
        lemma_refs_append(a, b.drop_last());
        assert((a + b).drop_last() =~= a + b.drop_last());
        assert(transactions_output_refs(a + b) =~= transactions_output_refs(a) + transactions_output_refs(b));
    }
}

pub proof fn lemma_volume_append(a: Seq<OutputRef>, b: Seq<OutputRef>)
    ensures
        volume(a + b) == volume(a) + volume(b),
    decreases b.len(),
{
    if b.len() == 0 {
        assert(a + b =~= a);
    } else {
        lemma_volume_append(a, b.drop_last());
        assert((a + b).drop_last() =~= a + b.drop_last());
    }
}

pub proof fn lemma_volume_nonneg(s: Seq<OutputRef>)
    ensures
        volume(s) >= 0,
    decreases s.len(),
{
    if s.len() > 0 {
        lemma_volume_nonneg(s.drop_last());
    }
}

/// An unspent sum is bounded by the volume of the outputs it ranges over.
pub proof fn lemma_unspent_bounded(blocks: Seq<Block>, owner: Option<HashBytes>, s: Seq<OutputRef>)
    ensures
        abs(unspent_sum(blocks, owner, s)) <= volume(s),
    decreases s.len(),
{
    if s.len() > 0 {
        lemma_unspent_bounded(blocks, owner, s.drop_last());
    }
}

/// The outputs visited before output `j` of transaction `k` of block `b`
/// weigh no more than all outputs of the chain.
/// The outputs before output `j` of the first of `rest` weigh no more than
/// all outputs of `pre + rest`.
pub proof fn lemma_transactions_prefix_volume(pre: Seq<Transaction>, rest: Seq<Transaction>, j: int)
    requires
        rest.len() > 0,
        0 <= j <= rest[0].spec_outputs().len(),
    ensures
        volume(transactions_output_refs(pre) + output_refs(rest[0]).take(j)) <= volume(
            transactions_output_refs(pre + rest),
        ),
{
    let one = seq![rest[0]];
    let tail = rest.skip(1);
    assert(rest =~= one + tail);
    lemma_refs_append(pre, rest);
    lemma_refs_append(one, tail);
    assert(one.drop_last() =~= Seq::<Transaction>::empty());
    assert(transactions_output_refs(one.drop_last()) =~= Seq::<OutputRef>::empty());
    assert(transactions_output_refs(one) =~= output_refs(rest[0]));
    let head = output_refs(rest[0]).take(j);
    let others = output_refs(rest[0]).skip(j) + transactions_output_refs(tail);
    assert(transactions_output_refs(pre + rest) =~= (transactions_output_refs(pre) + head) + others);
    lemma_volume_append(transactions_output_refs(pre) + head, others);
    lemma_volume_nonneg(others);
}

/// The outputs of the first `b + 1` blocks weigh no more than all of them.
pub proof fn lemma_blocks_prefix_volume(blocks: Seq<Block>, b: int)
    requires
        0 <= b < blocks.len(),
    ensures
        volume(transactions_output_refs(chain_transactions(blocks.take(b)) + blocks[b].spec_transactions()))
            <= volume(transactions_output_refs(chain_transactions(blocks))),
{
    let first = blocks.take(b + 1);
    let rest = blocks.skip(b + 1);
    assert(first.drop_last() =~= blocks.take(b));
    assert(chain_transactions(first) == chain_transactions(blocks.take(b)) + blocks[b].spec_transactions());
    assert(blocks =~= first + rest);
    lemma_chain_append(first, rest);
    lemma_refs_append(chain_transactions(first), chain_transactions(rest));
    lemma_volume_append(
        transactions_output_refs(chain_transactions(first)),
        transactions_output_refs(chain_transactions(rest)),
    );
    lemma_volume_nonneg(transactions_output_refs(chain_transactions(rest)));
}

/// The outputs visited before output `j` of transaction `k` of block `b`
/// weigh no more than all outputs of the chain.
pub proof fn lemma_prefix_volume(blocks: Seq<Block>, b: int, k: int, j: int)
    requires
        0 <= b < blocks.len(),
        0 <= k < blocks[b].spec_transactions().len(),
        0 <= j <= blocks[b].spec_transactions()[k].spec_outputs().len(),
    ensures
        volume(transactions_output_refs(chain_transactions(blocks.take(b)) + blocks[b].spec_transactions().take(k))
            + output_refs(blocks[b].spec_transactions()[k]).take(j)) <= volume(
            transactions_output_refs(chain_transactions(blocks)),
        ),
{
    let txs = blocks[b].spec_transactions();
    let pre = chain_transactions(blocks.take(b)) + txs.take(k);
    let rest = txs.skip(k);
    assert(rest[0] == txs[k]);
    lemma_transactions_prefix_volume(pre, rest, j);
    assert(pre + rest =~= chain_transactions(blocks.take(b)) + txs);
    lemma_blocks_prefix_volume(blocks, b);
}

pub proof fn lemma_chain_append(a: Seq<Block>, b: Seq<Block>)
    ensures
        chain_transactions(a + b) == chain_transactions(a) + chain_transactions(b),
    decreases b.len(),
{
    if b.len() == 0 {
        assert(a + b =~= a);
        assert(chain_transactions(a) + chain_transactions(b) =~= chain_transactions(a));
    } else {
        lemma_chain_append(a, b.drop_last());
        assert((a + b).drop_last() =~= a + b.drop_last());
        assert(chain_transactions(a + b) =~= chain_transactions(a) + chain_transactions(b));
    }
}

/// The transactions of the chain around block `b`.
pub proof fn lemma_chain_split(blocks: Seq<Block>, b: int)
    requires
        0 <= b < blocks.len(),
    ensures
        chain_transactions(blocks) == chain_transactions(blocks.take(b))
            + blocks[b].spec_transactions() + chain_transactions(blocks.skip(b + 1)),
{
    let one = seq![blocks[b]];
    assert(blocks =~= blocks.take(b) + (one + blocks.skip(b + 1)));
    lemma_chain_append(blocks.take(b), one + blocks.skip(b + 1));
    lemma_chain_append(one, blocks.skip(b + 1));
    assert(one.drop_last() =~= Seq::<Block>::empty());
    assert(chain_transactions(one.drop_last()) =~= Seq::<Transaction>::empty());
    assert(one.last() == blocks[b]);
    assert(chain_transactions(one) =~= blocks[b].spec_transactions());
    assert(chain_transactions(blocks) =~= chain_transactions(blocks.take(b))
        + blocks[b].spec_transactions() + chain_transactions(blocks.skip(b + 1)));
}

pub proof fn lemma_find_in_append(p: Seq<Transaction>, q: Seq<Transaction>, hash: Seq<u8>)
    requires
        find_in(p, hash) is Some,
    ensures
        find_in(p + q, hash) == find_in(p, hash),
    decreases q.len(),
{
    if q.len() == 0 {
        assert(p + q =~= p);
    } else {
        lemma_find_in_append(p, q.drop_last(), hash);
        assert((p + q).drop_last() =~= p + q.drop_last());
    }
}

} // verus!
