use vstd::prelude::*;

verus! {

/// The 128-bit xxHash digest (seeds 0 and 1) of some bytes.
pub uninterp spec fn twox_128_of(data: Seq<u8>) -> Seq<u8>;

/// The 256-bit xxHash digest (seeds 0 to 3) of some bytes.
pub uninterp spec fn twox_256_of(data: Seq<u8>) -> Seq<u8>;

/// The 64-bit xxHash digest (seed 0) of some bytes.
pub uninterp spec fn twox_64_of(data: Seq<u8>) -> Seq<u8>;

/// The 128-bit Blake2b digest of some bytes.
pub uninterp spec fn blake2_128_of(data: Seq<u8>) -> Seq<u8>;

/// The 256-bit Blake2b digest of some bytes.
pub uninterp spec fn blake2_256_of(data: Seq<u8>) -> Seq<u8>;

/// Relies on sp_crypto_hashing::twox_128: a 16-byte digest of the bytes alone.
#[verifier::external_body]
pub(crate) fn twox_128(data: &[u8]) -> (r: Vec<u8>)
    ensures
        r@ == twox_128_of(data@),
        r@.len() == 16,
{
    sp_crypto_hashing::twox_128(data).to_vec()
}

/// Relies on sp_crypto_hashing::twox_256: a 32-byte digest of the bytes alone.
#[verifier::external_body]
pub(crate) fn twox_256(data: &[u8]) -> (r: Vec<u8>)
    ensures
        r@ == twox_256_of(data@),
        r@.len() == 32,
{
    sp_crypto_hashing::twox_256(data).to_vec()
}

/// Relies on sp_crypto_hashing::twox_64: an 8-byte digest of the bytes alone.
#[verifier::external_body]
pub(crate) fn twox_64(data: &[u8]) -> (r: Vec<u8>)
    ensures
        r@ == twox_64_of(data@),
        r@.len() == 8,
{
    sp_crypto_hashing::twox_64(data).to_vec()
}

/// Relies on sp_crypto_hashing::blake2_128: a 16-byte digest of the bytes alone.
#[verifier::external_body]
pub(crate) fn blake2_128(data: &[u8]) -> (r: Vec<u8>)
    ensures
        r@ == blake2_128_of(data@),
        r@.len() == 16,
{
    sp_crypto_hashing::blake2_128(data).to_vec()
}

/// Relies on sp_crypto_hashing::blake2_256: a 32-byte digest of the bytes alone.
#[verifier::external_body]
pub(crate) fn blake2_256(data: &[u8]) -> (r: Vec<u8>)
    ensures
        r@ == blake2_256_of(data@),
        r@.len() == 32,
{
    sp_crypto_hashing::blake2_256(data).to_vec()
}

} // verus!
