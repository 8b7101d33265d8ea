//! Signatures that authorize spending one output.
use vstd::prelude::*;
use crate::crypto::{ecdsa_sign, ecdsa_signature_of, sha3_256, sha3_256_of, HashBytes, PrivateKey};
use crate::encoding::{u32_bytes, write_bytes, write_u32};

verus! {

/// A 64-byte ECDSA signature.
#[derive(Debug, Clone, Copy, PartialEq, Eq)]
pub struct Signature(pub [u8; 64]);

/// The digest that a spend of output `output_index` of `transaction_hash` signs.
pub open spec fn spend_message(transaction_hash: Seq<u8>, output_index: u32, public_key: Seq<u8>) -> Seq<u8> {
    sha3_256_of(transaction_hash + u32_bytes(output_index) + public_key)
}

impl Signature {
    /// Signs a digest; `None` when the private key is not a valid scalar.
    pub fn new(private_key: &PrivateKey, hash: &HashBytes) -> (r: Option<Signature>)
        ensures
            r is None <==> crate::crypto::public_key_of(private_key@) is None,
            r matches Some(s) ==> s.0@ == ecdsa_signature_of(private_key@, hash@),
    {
        match ecdsa_sign(private_key, hash) {
            Some(bytes) => Some(Signature(bytes)),
            None => None,
        }
    }
}

/// Signs the spend of one output: the message is the SHA3-256 of the
/// transaction hash, the output index (little-endian) and the public key.
pub fn sign_transaction(
    transaction_hash: &HashBytes,
    output_index: u32,
    public_key: &[u8],
    private_key: &PrivateKey,
) -> (r: Option<Signature>)
    ensures
        r is None <==> crate::crypto::public_key_of(private_key@) is None,
        r matches Some(s) ==> s.0@ == ecdsa_signature_of(
            private_key@,
            spend_message(transaction_hash@, output_index, public_key@),
        ),
{
    let hash = spend_digest(transaction_hash, output_index, public_key);
    Signature::new(private_key, &hash)
}

/// The digest that authorizes spending output `output_index` of `transaction_hash`.
pub fn spend_digest(transaction_hash: &HashBytes, output_index: u32, public_key: &[u8]) -> (r: HashBytes)
    ensures
        r@ == spend_message(transaction_hash@, output_index, public_key@),
{
    let mut message: Vec<u8> = Vec::new();
    write_bytes(&mut message, transaction_hash);
    write_u32(&mut message, output_index);
    write_bytes(&mut message, public_key);
    assert(message@ =~= transaction_hash@ + u32_bytes(output_index) + public_key@);
    sha3_256(message.as_slice())
}

} // verus!
