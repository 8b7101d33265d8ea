//! A minimal proof-of-work ledger: addresses, signed UTXO transactions,
//! hash-chained blocks and a pixel price model.

pub mod crypto;
pub mod encoding;
pub mod address;
pub mod error;
pub mod signature;
pub mod transaction;
pub mod block;
pub mod blockchain;
pub mod color;
pub mod pixel;
pub mod canvas;
