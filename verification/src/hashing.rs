//! Hash functions of outside crates.
use vstd::prelude::*;

verus! {

/// The 128-bit XXH3 hash of a byte string with the default secret and no seed.
pub uninterp spec fn xxh3_128_of(bytes: Seq<u8>) -> u128;

/// The 64-bit XXH3 hash of a byte string with the default secret and no seed.
pub uninterp spec fn xxh3_64_of(bytes: Seq<u8>) -> u64;

/// The BLAKE3 hash of a byte string.
pub uninterp spec fn blake3_hash_of(bytes: Seq<u8>) -> [u8; 32];

/// The bytes of the BLAKE3 hash of a byte string.
pub open spec fn blake3_of(bytes: Seq<u8>) -> Seq<u8> {
    blake3_hash_of(bytes)@
}

/// Hashes with `xxhash_rust::xxh3::xxh3_128`, whose result depends on the bytes alone.
#[verifier::external_body]
pub(crate) fn xxh3_128(bytes: &[u8]) -> (hash: u128)
    ensures
        hash == xxh3_128_of(bytes@),
{
    xxhash_rust::xxh3::xxh3_128(bytes)
}

/// Hashes with `xxhash_rust::xxh3::xxh3_64`, whose result depends on the bytes alone.
#[verifier::external_body]
pub(crate) fn xxh3_64(bytes: &[u8]) -> (hash: u64)
    ensures
        hash == xxh3_64_of(bytes@),
{
    xxhash_rust::xxh3::xxh3_64(bytes)
}

/// Hashes with `blake3::hash`, whose result is 32 bytes that depend on the input alone.
#[verifier::external_body]
pub(crate) fn blake3_hash(bytes: &[u8]) -> (hash: [u8; 32])
    ensures
        hash == blake3_hash_of(bytes@),
{
    *blake3::hash(bytes).as_bytes()
}

} // verus!
