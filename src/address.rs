//! Addresses: a version byte, a public-key hash and a checksum, in base58.
use vstd::prelude::*;
use crate::crypto::{
    base58_decode, base58_encode, base58_of, derive_public_key, public_key_of, sha3_256,
    sha3_256_of, HashBytes, PrivateKey,
};
use crate::encoding::{copy_range, write_bytes};

verus! {

/// The address format this library writes and accepts.
pub const CURRENT_VERSION: u8 = 0;

/// Length of a decoded address: version, public-key hash, checksum.
pub const ADDRESS_LEN: usize = 37;

/// The first four bytes of the double SHA3-256 of `version ++ public_key_hash`.
pub open spec fn checksum_of(version: u8, public_key_hash: Seq<u8>) -> Seq<u8> {
    sha3_256_of(sha3_256_of(seq![version] + public_key_hash)).take(4)
}

/// The bytes of the current-version address of a public-key hash.
pub open spec fn address_bytes(public_key_hash: Seq<u8>) -> Seq<u8> {
    seq![CURRENT_VERSION] + public_key_hash + checksum_of(CURRENT_VERSION, public_key_hash)
}

/// Whether decoded bytes form a well-formed current-version address.
pub open spec fn payload_valid(b: Seq<u8>) -> bool {
    &&& b.len() == ADDRESS_LEN
    &&& b[0] == CURRENT_VERSION
    &&& b.subrange(33, 37) == checksum_of(b[0], b.subrange(1, 33))
}

/// Whether a text is the base58 form of a well-formed address.
pub open spec fn address_text_valid(text: Seq<char>) -> bool {
    exists|b: Seq<u8>| base58_of(b) == text && payload_valid(b)
}

/// The public-key hash of a private key: SHA3-256 of its encoded public key.
pub open spec fn public_key_hash_of(private_key: Seq<u8>) -> Option<Seq<u8>> {
    match public_key_of(private_key) {
        Some(p) => Some(sha3_256_of(p)),
        None => None,
    }
}

/// A base58-encoded address; it may be unchecked until `validate` is called.
#[derive(Debug, PartialEq, Eq, Clone)]
pub struct Address {
    base58: String,
}

impl View for Address {
    type V = Seq<char>;

    closed spec fn view(&self) -> Seq<char> {
        self.base58@
    }
}

/// The encoded public key of a private key, `None` for an invalid key.
pub fn public_key(private_key: &PrivateKey) -> (r: Option<Vec<u8>>)
    ensures
        match public_key_of(private_key@) {
            Some(p) => r matches Some(v) && v@ == p,
            None => r is None,
        },
{
    derive_public_key(private_key)
}

/// The public-key hash of a private key, `None` for an invalid key.
pub fn public_key_hash(private_key: &PrivateKey) -> (r: Option<HashBytes>)
    ensures
        match public_key_hash_of(private_key@) {
            Some(h) => r matches Some(v) && v@ == h,
            None => r is None,
        },
{
    match derive_public_key(private_key) {
        Some(public_key) => Some(sha3_256(public_key.as_slice())),
        None => None,
    }
}

impl Address {
    /// The address of a private key; `None` when the key is not a valid scalar.
    pub fn from_private_key(private_key: &PrivateKey) -> (r: Option<Address>)
        ensures
            match public_key_hash_of(private_key@) {
                Some(h) => r matches Some(a) && a@ == base58_of(address_bytes(h)),
                None => r is None,
            },
            r matches Some(a) ==> address_text_valid(a@),
    {
        match public_key_hash(private_key) {
            Some(hash) => {
                let a = Self::from_public_key_hash(&hash);
                Some(a)
            },
            None => None,
        }
    }

    /// The current-version address of a public-key hash.
    pub fn from_public_key_hash(public_key_hash: &HashBytes) -> (r: Address)
        ensures
            r@ == base58_of(address_bytes(public_key_hash@)),
            address_text_valid(r@),
    {
        let checksum = Self::calculate_checksum(CURRENT_VERSION, public_key_hash);
        let mut value: Vec<u8> = Vec::new();
        value.push(CURRENT_VERSION);
        write_bytes(&mut value, public_key_hash);
        write_bytes(&mut value, checksum.as_slice());
        assert(value@ =~= address_bytes(public_key_hash@));
        proof {
            let b = value@;
            assert(b.subrange(1, 33) =~= public_key_hash@);
            assert(b.subrange(33, 37) =~= checksum@);
            assert(payload_valid(b));
        }
        Address { base58: base58_encode(value.as_slice()) }
    }

    /// The base58 address text of decoded address bytes; it validates
    /// exactly when the bytes form a well-formed address.
    pub fn from_bytes(bytes: &[u8]) -> (r: Address)
        ensures
            r@ == base58_of(bytes@),
            address_text_valid(r@) == payload_valid(bytes@),
    {
        Address { base58: base58_encode(bytes) }
    }

    /// Wraps a text as an address, without checking it.
    pub fn from_string(base58: &str) -> (r: Address)
        ensures
            r@ == base58@,
    {
        Address { base58: base58.to_string() }
    }

    pub fn as_str(&self) -> (r: &str)
        ensures
            r@ == self@,
    {
        self.base58.as_str()
    }

    /// Whether the text decodes to a current-version address with a correct checksum.
    pub fn validate(&self) -> (r: bool)
        ensures
            r == address_text_valid(self@),
    {
        let decoded = match base58_decode(self.base58.as_str()) {
            Some(d) => d,
            None => {
                return false;
            },
        };
        assert(base58_of(decoded@) == self@);
        assert(forall|b: Seq<u8>| base58_of(b) == self@ ==> b == decoded@);
        if decoded.len() != ADDRESS_LEN {
            assert(!payload_valid(decoded@));
            return false;
        }
        let version = decoded[0];
        if version != CURRENT_VERSION {
            return false;
        }
        let public_key_hash = copy_range(decoded.as_slice(), 1, 33);
        let check = Self::calculate_checksum(version, public_key_hash.as_slice());
        let mut i: usize = 0;
        while i < 4
            invariant
                i <= 4,
                decoded@.len() == ADDRESS_LEN,
                check@ == checksum_of(version, decoded@.subrange(1, 33)),
                check@.len() == 4,
                version == decoded@[0],
                forall|b: Seq<u8>| base58_of(b) == self@ ==> b == decoded@,
                forall|j: int| 0 <= j < i ==> decoded@[33 + j] == check@[j],
            decreases 4 - i,
        {
            if decoded[33 + i] != check[i] {
                assert(decoded@.subrange(33, 37)[i as int] != check@[i as int]);
                assert(!payload_valid(decoded@));
                assert(!address_text_valid(self@));
                return false;
            }
            i = i + 1;
        }
        assert(decoded@.subrange(33, 37) =~= check@);
        true
    }

    /// The first four bytes of the double SHA3-256 of `version ++ public_key_hash`.
    fn calculate_checksum(version: u8, public_key_hash: &[u8]) -> (r: Vec<u8>)
        ensures
            r@ == checksum_of(version, public_key_hash@),
            r@.len() == 4,
    {
        let mut data: Vec<u8> = Vec::new();
        data.push(version);
        write_bytes(&mut data, public_key_hash);
        assert(data@ =~= seq![version] + public_key_hash@);
        let first = sha3_256(data.as_slice());
        let second = sha3_256(&first);
        copy_range(&second, 0, 4)
    }
}

/// Changing one byte of a well-formed address: a changed version or
/// checksum byte always breaks it; a changed public-key-hash byte breaks it
/// unless the new hash has the same four-byte checksum.
pub proof fn lemma_checksum_sensitivity(b: Seq<u8>, changed: Seq<u8>, j: int)
    requires
        payload_valid(b),
        changed.len() == b.len(),
        0 <= j < b.len(),
        changed[j] != b[j],
        forall|i: int| 0 <= i < b.len() && i != j ==> changed[i] == b[i],
    ensures
        (j == 0 || 33 <= j) ==> !payload_valid(changed),
        1 <= j < 33 ==> (payload_valid(changed) <==> checksum_of(CURRENT_VERSION, changed.subrange(1, 33))
            == b.subrange(33, 37)),
{
    if 33 <= j {
        assert(changed.subrange(1, 33) =~= b.subrange(1, 33));
        assert(changed.subrange(33, 37)[j - 33] != b.subrange(33, 37)[j - 33]);
    }
    if 1 <= j < 33 {
        assert(changed.subrange(33, 37) =~= b.subrange(33, 37));
    }
}

/// Every address derived from a public-key hash validates: base58 decoding
/// gives back its bytes, whose version is current and whose checksum
/// recomputes. `inner` and `outer` are the two SHA3-256 digests of the
/// checksum as 32-byte values: they carry the fact that a digest has 32
/// bytes, which the proof needs for the address to have 37.
pub proof fn lemma_address_round_trip(public_key_hash: HashBytes, inner: HashBytes, outer: HashBytes)
    requires
        inner@ == sha3_256_of(seq![CURRENT_VERSION] + public_key_hash@),
        outer@ == sha3_256_of(inner@),
    ensures
        address_text_valid(base58_of(address_bytes(public_key_hash@))),
{
    let b = address_bytes(public_key_hash@);
    assert(b.subrange(1, 33) =~= public_key_hash@);
    assert(b.subrange(33, 37) =~= checksum_of(CURRENT_VERSION, public_key_hash@));
    assert(payload_valid(b));
}

} // verus!
