//! The cryptographic primitives the ledger builds on: SHA3-256, base58,
//! secp256k1 keys and ECDSA signatures.
use vstd::prelude::*;

verus! {

/// A 32-byte digest: identifies blocks, transactions and public keys.
pub type HashBytes = [u8; 32];

/// A 32-byte secp256k1 secret scalar, big-endian.
pub type PrivateKey = [u8; 32];

/// The SHA3-256 digest of a byte string.
pub uninterp spec fn sha3_256_of(data: Seq<u8>) -> Seq<u8>;

/// The SEC1 encoding of the public key of a secret scalar, or `None` when the
/// bytes are no valid secret scalar (zero, or not below the group order).
pub uninterp spec fn public_key_of(private_key: Seq<u8>) -> Option<Seq<u8>>;

/// The 64-byte ECDSA/secp256k1 signature (RFC 6979 nonce) of a message.
pub uninterp spec fn ecdsa_signature_of(private_key: Seq<u8>, message: Seq<u8>) -> Seq<u8>;

/// Whether an ECDSA/secp256k1 signature over a message verifies under an
/// SEC1-encoded public key.
pub uninterp spec fn ecdsa_accepts(public_key: Seq<u8>, message: Seq<u8>, signature: Seq<u8>) -> bool;

/// The base58 text (Bitcoin alphabet) of a byte string.
pub uninterp spec fn base58_of(data: Seq<u8>) -> Seq<char>;

/// Relies on `sha3::Sha3_256::digest`: the 32-byte SHA3-256 digest of `data`.
#[verifier::external_body]
pub(crate) fn sha3_256(data: &[u8]) -> (r: HashBytes)
    ensures
        r@ == sha3_256_of(data@),
{
    <sha3::Sha3_256 as sha3::Digest>::digest(data).into()
}

/// Relies on `k256::SecretKey::from_slice`, `public_key` and `to_sec1_bytes`:
/// the encoded public key of a valid secret scalar, `None` for an invalid one.
#[verifier::external_body]
pub(crate) fn derive_public_key(private_key: &PrivateKey) -> (r: Option<Vec<u8>>)
    ensures
        match public_key_of(private_key@) {
            Some(p) => r matches Some(v) && v@ == p,
            None => r is None,
        },
{
    match k256::SecretKey::from_slice(private_key) {
        Ok(secret) => Some(secret.public_key().to_sec1_bytes().to_vec()),
        Err(_) => None,
    }
}

/// Relies on `k256::ecdsa::SigningKey::from_slice` and `Signer::sign`: a
/// deterministic signature over `message`, refused exactly where
/// `derive_public_key` refuses the key (both parse it as `SecretKey`).
#[verifier::external_body]
pub(crate) fn ecdsa_sign(private_key: &PrivateKey, message: &[u8]) -> (r: Option<[u8; 64]>)
    ensures
        r is None <==> public_key_of(private_key@) is None,
        r matches Some(s) ==> s@ == ecdsa_signature_of(private_key@, message@),
{
    match k256::ecdsa::SigningKey::from_slice(private_key) {
        Ok(key) => {
            let signature: k256::ecdsa::Signature = ecdsa::signature::Signer::sign(&key, message);
            Some(signature.to_bytes().into())
        },
        Err(_) => None,
    }
}

/// Relies on `k256::ecdsa::VerifyingKey::from_sec1_bytes`, `Signature::from_slice`
/// and `Verifier::verify`; a signature made by `ecdsa_sign` with the secret
/// scalar of the public key verifies (ECDSA correctness).
#[verifier::external_body]
pub(crate) fn ecdsa_verify(public_key: &[u8], message: &[u8], signature: &[u8; 64]) -> (r: bool)
    ensures
        r == ecdsa_accepts(public_key@, message@, signature@),
        (exists|k: Seq<u8>|
            public_key_of(k) == Some(public_key@) && ecdsa_signature_of(k, message@)
                == signature@) ==> r,
{
    let key = match k256::ecdsa::VerifyingKey::from_sec1_bytes(public_key) {
        Ok(key) => key,
        Err(_) => return false,
    };
    let signature = match k256::ecdsa::Signature::from_slice(signature) {
        Ok(signature) => signature,
        Err(_) => return false,
    };
    ecdsa::signature::Verifier::verify(&key, message, &signature).is_ok()
}

/// Relies on `bs58::encode(..).into_string()`: the base58 text of `data`;
/// no other byte string has the same text (decoding inverts encoding).
#[verifier::external_body]
pub(crate) fn base58_encode(data: &[u8]) -> (r: String)
    ensures
        r@ == base58_of(data@),
        forall|b: Seq<u8>| base58_of(b) == r@ ==> b == data@,
{
    bs58::encode(data).into_string()
}

/// Relies on `bs58::decode(..).into_vec()`: it inverts `bs58::encode`, and
/// fails exactly on text that no byte string encodes to.
#[verifier::external_body]
pub(crate) fn base58_decode(text: &str) -> (r: Option<Vec<u8>>)
    ensures
        forall|b: Seq<u8>| (base58_of(b) == text@) <==> (r matches Some(v) && v@ == b),
{
    bs58::decode(text).into_vec().ok()
}

} // verus!
