//! The digests used for storage-address derivation and signing-payload
//! compression.  Each digest is a pure function of its input bytes; the
//! library names the results and trusts the outside implementations for the
//! bytes themselves.
use vstd::prelude::*;

verus! {

/// The 16-byte xxHash ("twox") digest of `data`.
pub uninterp spec fn twox_128_of(data: Seq<u8>) -> Seq<u8>;

/// The 8-byte xxHash ("twox") digest of `data`.
pub uninterp spec fn twox_64_of(data: Seq<u8>) -> Seq<u8>;

/// The 16-byte Blake2b digest of `data`.
pub uninterp spec fn blake2_128_of(data: Seq<u8>) -> Seq<u8>;

/// The 32-byte Blake2b digest of `data`.
pub uninterp spec fn blake2_256_of(data: Seq<u8>) -> Seq<u8>;

/// Relies on `sp_crypto_hashing::twox_128`: a 16-byte digest that depends on
/// the input bytes alone.
#[verifier::external_body]
pub(crate) fn twox_128(data: &[u8]) -> (r: Vec<u8>)
    ensures
        r@ == twox_128_of(data@),
        r@.len() == 16,
{
    sp_crypto_hashing::twox_128(data).to_vec()
}

/// Relies on `sp_crypto_hashing::twox_64`: an 8-byte digest that depends on
/// the input bytes alone.
#[verifier::external_body]
pub(crate) fn twox_64(data: &[u8]) -> (r: Vec<u8>)
    ensures
        r@ == twox_64_of(data@),
        r@.len() == 8,
{
    sp_crypto_hashing::twox_64(data).to_vec()
}

/// Relies on `sp_crypto_hashing::blake2_128`: a 16-byte digest that depends
/// on the input bytes alone.
#[verifier::external_body]
pub(crate) fn blake2_128(data: &[u8]) -> (r: Vec<u8>)
    ensures
        r@ == blake2_128_of(data@),
        r@.len() == 16,
{
    sp_crypto_hashing::blake2_128(data).to_vec()
}

/// Relies on `sp_crypto_hashing::blake2_256`: a 32-byte digest that depends
/// on the input bytes alone.
#[verifier::external_body]
pub(crate) fn blake2_256(data: &[u8]) -> (r: Vec<u8>)
    ensures
        r@ == blake2_256_of(data@),
        r@.len() == 32,
{
    sp_crypto_hashing::blake2_256(data).to_vec()
}

} // verus!
