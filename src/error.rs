//! The ways a ledger operation can fail.
use vstd::prelude::*;

verus! {

#[derive(Debug, Clone, Copy, PartialEq, Eq, Structural)]
pub enum LedgerError {
    /// An input names a transaction that is not in the chain.
    UnknownInput,
    /// An input names an output index that its transaction does not have.
    OutputIndexOutOfRange,
    /// An input names a pixel output, which cannot be spent.
    OutputTypeMismatch,
    /// An input's public key does not own the output, or its signature fails.
    Unauthorized,
    /// The outputs are worth more than the inputs.
    InsufficientInputValue,
    /// An output has a negative value, which would create credits.
    NegativeOutputValue,
    /// A transaction has more outputs than a `u32` index can name.
    TooManyOutputs,
    /// A value does not fit in the credit range.
    ValueOverflow,
    /// The sender's unspent outputs do not cover the payment.
    InsufficientFunds,
    /// A pixel purchase pays less than the pixel's price.
    PixelPriceTooLow,
    /// An input spends an output already spent in the chain or the pending pool.
    DoubleSpend,
    /// The last block has no reward transaction, so its height is unknown.
    BlockHeightUnresolvable,
    /// The bytes are not a valid secret scalar.
    InvalidPrivateKey,
    /// No proof of work was found.
    ProofNotFound,
}

} // verus!
