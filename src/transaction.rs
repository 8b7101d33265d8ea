//! Transactions: inputs that spend earlier outputs or claim a block reward,
//! and outputs that pay an address or buy a pixel.
use vstd::prelude::*;
use crate::blockchain::{find_in, Blockchain};
use crate::crypto::{ecdsa_accepts, ecdsa_verify, sha3_256, sha3_256_of, HashBytes};
use crate::error::LedgerError;
use crate::signature::{spend_digest, spend_message};
use crate::encoding::{
    hashes_equal, i32_bytes, i64_bytes, u32_bytes, u64_bytes, write_bytes, write_i32, write_i64, write_prefixed,
    write_u32, write_u64,
};
use crate::signature::Signature;

verus! {

pub type Version = u32;

pub type Point = (i32, i32);

/// A red, green, blue triple.
pub type Rgb = (u8, u8, u8);

pub type Credits = i64;

/// The transaction format this library writes.
pub const CURRENT_TRANSACTION_VERSION: u32 = 0;

#[derive(Debug)]
pub enum TransactionInput {
    /// Spends output `output_index` of the transaction `transaction_hash`.
    FromOutput {
        transaction_hash: HashBytes,
        output_index: u32,
        public_key: Vec<u8>,
        signature: Signature,
    },
    /// Claims the reward of the block at `height`.
    FromReward { height: u64, value: Credits },
}

#[derive(Debug, Clone, Copy)]
pub enum TransactionOutput {
    /// A spendable balance for the owner of `public_key_hash`.
    ToInput { value: Credits, public_key_hash: HashBytes },
    /// The purchase of a pixel; it cannot be spent.
    ToPixel { value: Credits, position: Point, color: Rgb },
}

/// The value an output draws from its transaction's inputs.
pub open spec fn output_value(o: TransactionOutput) -> int {
    match o {
        TransactionOutput::ToInput { value, .. } => value as int,
        TransactionOutput::ToPixel { value, .. } => value as int,
    }
}

/// The sum of the values of a sequence of outputs.
pub open spec fn outputs_value(s: Seq<TransactionOutput>) -> int
    decreases s.len(),
{
    if s.len() == 0 {
        0
    } else {
        outputs_value(s.drop_last()) + output_value(s.last())
    }
}

pub open spec fn input_bytes(i: TransactionInput) -> Seq<u8> {
    match i {
        TransactionInput::FromOutput { transaction_hash, output_index, public_key, signature } =>
            u32_bytes(0) + transaction_hash@ + u32_bytes(output_index) + u64_bytes(
            public_key@.len() as u64) + public_key@ + u64_bytes(64) + signature.0@,
        TransactionInput::FromReward { height, value } =>
            u32_bytes(1) + u64_bytes(height) + i64_bytes(value),
    }
}

pub open spec fn output_bytes(o: TransactionOutput) -> Seq<u8> {
    match o {
        TransactionOutput::ToInput { value, public_key_hash } =>
            u32_bytes(0) + i64_bytes(value) + public_key_hash@,
        TransactionOutput::ToPixel { value, position, color } =>
            u32_bytes(1) + i64_bytes(value) + i32_bytes(position.0) + i32_bytes(position.1)
                + seq![color.0, color.1, color.2],
    }
}

pub open spec fn inputs_bytes(s: Seq<TransactionInput>) -> Seq<u8>
    decreases s.len(),
{
    if s.len() == 0 {
        Seq::empty()
    } else {
        inputs_bytes(s.drop_last()) + input_bytes(s.last())
    }
}

pub open spec fn outputs_bytes(s: Seq<TransactionOutput>) -> Seq<u8>
    decreases s.len(),
{
    if s.len() == 0 {
        Seq::empty()
    } else {
        outputs_bytes(s.drop_last()) + output_bytes(s.last())
    }
}

/// The canonical encoding of a transaction's content, fields in order,
/// sequences prefixed by their length.
pub open spec fn transaction_bytes(
    version: u32,
    inputs: Seq<TransactionInput>,
    outputs: Seq<TransactionOutput>,
    lock_time: u32,
) -> Seq<u8> {
    u32_bytes(version) + u64_bytes(inputs.len() as u64) + inputs_bytes(inputs) + u64_bytes(
        outputs.len() as u64,
    ) + outputs_bytes(outputs) + u32_bytes(lock_time)
}

pub fn write_input(out: &mut Vec<u8>, input: &TransactionInput)
    ensures
        final(out)@ == old(out)@ + input_bytes(*input),
{
    match input {
        TransactionInput::FromOutput { transaction_hash, output_index, public_key, signature } => {
            write_u32(out, 0);
            write_bytes(out, transaction_hash);
            write_u32(out, *output_index);
            write_prefixed(out, public_key.as_slice());
            write_prefixed(out, &signature.0);
            assert(signature.0@.len() == 64);
        },
        TransactionInput::FromReward { height, value } => {
            write_u32(out, 1);
            write_u64(out, *height);
            write_i64(out, *value);
        },
    }
    assert(final(out)@ =~= old(out)@ + input_bytes(*input));
}

pub fn write_output(out: &mut Vec<u8>, output: &TransactionOutput)
    ensures
        final(out)@ == old(out)@ + output_bytes(*output),
{
    match output {
        TransactionOutput::ToInput { value, public_key_hash } => {
            write_u32(out, 0);
            write_i64(out, *value);
            write_bytes(out, public_key_hash);
        },
        TransactionOutput::ToPixel { value, position, color } => {
            write_u32(out, 1);
            write_i64(out, *value);
            write_i32(out, position.0);
            write_i32(out, position.1);
            out.push(color.0);
            out.push(color.1);
            out.push(color.2);
        },
    }
    assert(final(out)@ =~= old(out)@ + output_bytes(*output));
}

/// Appends the canonical encoding of a transaction's content.
pub fn write_transaction_data(
    out: &mut Vec<u8>,
    version: u32,
    inputs: &Vec<TransactionInput>,
    outputs: &Vec<TransactionOutput>,
    lock_time: u32,
)
    ensures
        final(out)@ == old(out)@ + transaction_bytes(version, inputs@, outputs@, lock_time),
{
    write_u32(out, version);
    write_u64(out, inputs.len() as u64);
    let ghost start = out@;
    let mut i: usize = 0;
    while i < inputs.len()
        invariant
            i <= inputs@.len(),
            out@ == start + inputs_bytes(inputs@.take(i as int)),
        decreases inputs@.len() - i,
    {
        write_input(out, &inputs[i]);
        assert(inputs@.take(i + 1).drop_last() =~= inputs@.take(i as int));
        i = i + 1;
    }
    assert(inputs@.take(inputs@.len() as int) =~= inputs@);
    write_u64(out, outputs.len() as u64);
    let ghost middle = out@;
    let mut j: usize = 0;
    while j < outputs.len()
        invariant
            j <= outputs@.len(),
            out@ == middle + outputs_bytes(outputs@.take(j as int)),
        decreases outputs@.len() - j,
    {
        write_output(out, &outputs[j]);
        assert(outputs@.take(j + 1).drop_last() =~= outputs@.take(j as int));
        j = j + 1;
    }
    assert(outputs@.take(outputs@.len() as int) =~= outputs@);
    write_u32(out, lock_time);
    assert(final(out)@ =~= old(out)@ + transaction_bytes(version, inputs@, outputs@, lock_time));
}

/// The value an input brings, resolved against the committed transactions.
/// A spend must name an existing payment output, carry the public key whose
/// hash owns it, and a signature of the spend under that key.
pub open spec fn resolve_input(committed: Seq<Transaction>, input: TransactionInput) -> Result<int, LedgerError> {
    match input {
        TransactionInput::FromReward { value, .. } => Ok(value as int),
        TransactionInput::FromOutput { transaction_hash, output_index, public_key, signature } =>
            match find_in(committed, transaction_hash@) {
            None => Err(LedgerError::UnknownInput),
            Some(t) => if output_index >= t.spec_outputs().len() {
                Err(LedgerError::OutputIndexOutOfRange)
            } else {
                match t.spec_outputs()[output_index as int] {
                    TransactionOutput::ToPixel { .. } => Err(LedgerError::OutputTypeMismatch),
                    TransactionOutput::ToInput { value, public_key_hash } =>
                        if public_key_hash@ == sha3_256_of(public_key@) && ecdsa_accepts(
                        public_key@,
                        spend_message(transaction_hash@, output_index, public_key@),
                        signature.0@,
                    ) {
                        Ok(value as int)
                    } else {
                        Err(LedgerError::Unauthorized)
                    },
                }
            },
        },
    }
}

/// The total value of the inputs, or the error of the first that fails.
pub open spec fn inputs_value(committed: Seq<Transaction>, s: Seq<TransactionInput>) -> Result<int, LedgerError>
    decreases s.len(),
{
    if s.len() == 0 {
        Ok(0)
    } else {
        match inputs_value(committed, s.drop_last()) {
            Err(e) => Err(e),
            Ok(v) => match resolve_input(committed, s.last()) {
                Err(e) => Err(e),
                Ok(w) => Ok(v + w),
            },
        }
    }
}

/// The balance (inputs minus outputs) of a transaction under construction,
/// or why it cannot be built.
pub open spec fn construction_balance(
    committed: Seq<Transaction>,
    inputs: Seq<TransactionInput>,
    outputs: Seq<TransactionOutput>,
) -> Result<int, LedgerError> {
    if outputs.len() > u32::MAX {
        Err(LedgerError::TooManyOutputs)
    } else if exists|j: int| 0 <= j < outputs.len() && output_value(#[trigger] outputs[j]) < 0 {
        Err(LedgerError::NegativeOutputValue)
    } else {
        match inputs_value(committed, inputs) {
            Err(e) => Err(e),
            Ok(v) => if v - outputs_value(outputs) < 0 {
                Err(LedgerError::InsufficientInputValue)
            } else if v - outputs_value(outputs) > i64::MAX {
                Err(LedgerError::ValueOverflow)
            } else {
                Ok(v - outputs_value(outputs))
            },
        }
    }
}

/// The value `input` brings, checked as `resolve_input` states.
pub fn resolve_input_value(blockchain: &Blockchain, input: &TransactionInput) -> (r: Result<Credits, LedgerError>)
    ensures
        match resolve_input(blockchain.committed(), *input) {
            Ok(v) => r == Ok::<Credits, LedgerError>(v as Credits),
            Err(e) => r == Err::<Credits, LedgerError>(e),
        },
{
    match input {
        TransactionInput::FromReward { value, .. } => Ok(*value),
        TransactionInput::FromOutput { transaction_hash, output_index, public_key, signature } => {
            let t = match blockchain.find_transaction(transaction_hash) {
                Some(t) => t,
                None => {
                    return Err(LedgerError::UnknownInput);
                },
            };
            let outputs = t.get_outputs();
            if *output_index as usize >= outputs.len() {
                return Err(LedgerError::OutputIndexOutOfRange);
            }
            match outputs[*output_index as usize] {
                TransactionOutput::ToPixel { .. } => Err(LedgerError::OutputTypeMismatch),
                TransactionOutput::ToInput { value, public_key_hash } => {
                    let key_hash = sha3_256(public_key.as_slice());
                    if !hashes_equal(&key_hash, &public_key_hash) {
                        return Err(LedgerError::Unauthorized);
                    }
                    let message = spend_digest(transaction_hash, *output_index, public_key.as_slice());
                    if ecdsa_verify(public_key.as_slice(), &message, &signature.0) {
                        Ok(value)
                    } else {
                        Err(LedgerError::Unauthorized)
                    }
                },
            }
        },
    }
}

/// A hash-identified transaction; built only by `try_new`, which checks that
/// its inputs cover its outputs.
#[derive(Debug)]
pub struct Transaction {
    pub(crate) version: Version,
    pub(crate) inputs: Vec<TransactionInput>,
    pub(crate) outputs: Vec<TransactionOutput>,
    pub(crate) lock_time: u32,
    pub(crate) balance: Credits,
    pub(crate) hash: HashBytes,
}

impl Transaction {
    #[verifier::type_invariant]
    pub(crate) open spec fn wf(&self) -> bool {
        &&& self.balance >= 0
        &&& self.outputs@.len() <= u32::MAX
        &&& self.hash@ == sha3_256_of(self.content_bytes())
    }

    /// The canonical encoding of this transaction's content.
    pub open(crate) spec fn content_bytes(&self) -> Seq<u8> {
        transaction_bytes(self.version, self.inputs@, self.outputs@, self.lock_time)
    }

    pub open(crate) spec fn spec_version(&self) -> u32 {
        self.version
    }

    pub open(crate) spec fn spec_lock_time(&self) -> u32 {
        self.lock_time
    }

    pub open(crate) spec fn spec_inputs(&self) -> Seq<TransactionInput> {
        self.inputs@
    }

    pub open(crate) spec fn spec_outputs(&self) -> Seq<TransactionOutput> {
        self.outputs@
    }

    pub open(crate) spec fn spec_balance(&self) -> int {
        self.balance as int
    }

    pub open(crate) spec fn spec_hash(&self) -> HashBytes {
        self.hash
    }

    /// Builds a transaction after resolving every input against the chain:
    /// it fails as `construction_balance` states, else its balance is the
    /// input value minus the output value and its hash the SHA3-256 of its
    /// canonical encoding.
    pub fn try_new(
        blockchain: &Blockchain,
        inputs: Vec<TransactionInput>,
        outputs: Vec<TransactionOutput>,
        lock_time: u32,
    ) -> (r: Result<Transaction, LedgerError>)
        ensures
            match construction_balance(blockchain.committed(), inputs@, outputs@) {
                Err(e) => r == Err::<Transaction, LedgerError>(e),
                Ok(d) => r matches Ok(t) && t.spec_version() == CURRENT_TRANSACTION_VERSION
                    && t.spec_inputs() == inputs@ && t.spec_outputs() == outputs@
                    && t.spec_lock_time() == lock_time && t.spec_balance() == d
                    && t.spec_hash()@ == sha3_256_of(
                    transaction_bytes(CURRENT_TRANSACTION_VERSION, inputs@, outputs@, lock_time),
                ),
            },
            r matches Ok(t) ==> t.spec_balance() >= 0,
    {
        if outputs.len() > u32::MAX as usize {
            return Err(LedgerError::TooManyOutputs);
        }
        let mut k: usize = 0;
        while k < outputs.len()
            invariant
                k <= outputs@.len(),
                outputs@.len() <= u32::MAX,
                forall|j: int| 0 <= j < k ==> output_value(#[trigger] outputs@[j]) >= 0,
            decreases outputs@.len() - k,
        {
            let v = match outputs[k] {
                TransactionOutput::ToInput { value, .. } => value,
                TransactionOutput::ToPixel { value, .. } => value,
            };
            if v < 0 {
                assert(output_value(outputs@[k as int]) < 0);
                return Err(LedgerError::NegativeOutputValue);
            }
            k = k + 1;
        }
        let ghost committed = blockchain.committed();
        let mut total_in: i128 = 0;
        let mut i: usize = 0;
        while i < inputs.len()
            invariant
                i <= inputs@.len(),
                committed == blockchain.committed(),
                outputs@.len() <= u32::MAX,
                forall|j: int| 0 <= j < outputs@.len() ==> output_value(#[trigger] outputs@[j]) >= 0,
                inputs_value(committed, inputs@.take(i as int)) == Ok::<int, LedgerError>(total_in as int),
                -(i as int) * 0x8000_0000_0000_0000 <= total_in <= (i as int) * 0x8000_0000_0000_0000,
            decreases inputs@.len() - i,
        {
            assert(inputs@.take(i + 1).drop_last() =~= inputs@.take(i as int));
            let v = match resolve_input_value(blockchain, &inputs[i]) {
                Ok(v) => v,
                Err(e) => {
                    proof {
                        lemma_inputs_value_error(committed, inputs@, i as int);
                        assert(construction_balance(committed, inputs@, outputs@) == Err::<int, LedgerError>(e));
                    }
                    return Err(e);
                },
            };
            total_in = total_in + v as i128;
            i = i + 1;
        }
        assert(inputs@.take(inputs@.len() as int) =~= inputs@);
        let mut total_out: i128 = 0;
        let mut j: usize = 0;
        while j < outputs.len()
            invariant
                j <= outputs@.len(),
                outputs_value(outputs@.take(j as int)) == total_out as int,
                -(j as int) * 0x8000_0000_0000_0000 <= total_out <= (j as int) * 0x8000_0000_0000_0000,
            decreases outputs@.len() - j,
        {
            assert(outputs@.take(j + 1).drop_last() =~= outputs@.take(j as int));
            let v = match outputs[j] {
                TransactionOutput::ToInput { value, .. } => value,
                TransactionOutput::ToPixel { value, .. } => value,
            };
            total_out = total_out + v as i128;
            j = j + 1;
        }
        assert(outputs@.take(outputs@.len() as int) =~= outputs@);
        if total_in < total_out {
            return Err(LedgerError::InsufficientInputValue);
        }
        if total_in > total_out + 0x7fff_ffff_ffff_ffff {
            return Err(LedgerError::ValueOverflow);
        }
        let balance = (total_in - total_out) as i64;
        let mut encoded: Vec<u8> = Vec::new();
        write_transaction_data(&mut encoded, CURRENT_TRANSACTION_VERSION, &inputs, &outputs, lock_time);
        assert(encoded@ =~= transaction_bytes(CURRENT_TRANSACTION_VERSION, inputs@, outputs@, lock_time));
        let hash = sha3_256(encoded.as_slice());
        Ok(Transaction { version: CURRENT_TRANSACTION_VERSION, inputs, outputs, lock_time, balance, hash })
    }

    pub fn get_version(&self) -> (r: Version)
        ensures
            r == self.spec_version(),
    {
        self.version
    }

    pub fn get_inputs(&self) -> (r: &[TransactionInput])
        ensures
            r@ == self.spec_inputs(),
    {
        self.inputs.as_slice()
    }

    pub fn get_outputs(&self) -> (r: &[TransactionOutput])
        ensures
            r@ == self.spec_outputs(),
    {
        self.outputs.as_slice()
    }

    pub fn get_lock_time(&self) -> (r: u32)
        ensures
            r == self.spec_lock_time(),
    {
        self.lock_time
    }

    pub fn get_balance(&self) -> (r: Credits)
        ensures
            r == self.spec_balance(),
            r >= 0,
    {
        proof {
            use_type_invariant(self);
        }
        self.balance
    }

    pub fn get_hash(&self) -> (r: &HashBytes)
        ensures
            *r == self.spec_hash(),
            r@ == sha3_256_of(self.content_bytes()),
    {
        proof {
            use_type_invariant(self);
        }
        &self.hash
    }
}

/// Resolving inputs fails only with an error about an input.
pub proof fn lemma_inputs_value_errors(committed: Seq<Transaction>, s: Seq<TransactionInput>)
    ensures
        inputs_value(committed, s) matches Err(e) ==> e != LedgerError::InsufficientFunds,
    decreases s.len(),
{
    if s.len() > 0 {
        lemma_inputs_value_errors(committed, s.drop_last());
    }
}

/// An input that fails to resolve makes the whole sequence fail with its
/// error, when every input before it resolves.
pub proof fn lemma_inputs_value_error(committed: Seq<Transaction>, s: Seq<TransactionInput>, i: int)
    requires
        0 <= i < s.len(),
        inputs_value(committed, s.take(i)) is Ok,
        resolve_input(committed, s[i]) is Err,
    ensures
        inputs_value(committed, s) == Err::<int, LedgerError>(resolve_input(committed, s[i])->Err_0),
    decreases s.len(),
{
    if i == s.len() - 1 {
        assert(s.drop_last() =~= s.take(i));
    } else {
        assert(s.drop_last().take(i) =~= s.take(i));
        lemma_inputs_value_error(committed, s.drop_last(), i);
    }
}

} // verus!
