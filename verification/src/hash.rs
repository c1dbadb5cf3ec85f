//! The hash engine: single SHA-256 for leaf slots, double SHA-256 for
//! internal slots.

use crypto::digest::Digest;
use crypto::sha2::Sha256;
use vstd::prelude::*;

verus! {

/// Number of bytes in one hash value, and so in one slot of a tree level.
pub const HASH_LEN: usize = 32;

/// Smallest block length the tree accepts, required by the hash engine.
pub const MIN_BLOCK_LEN: usize = 32;

/// The SHA-256 digest of a byte sequence. The digest is a function of the
/// bytes alone; the trusted wrapper below ties this name to rust-crypto's
/// implementation.
pub uninterp spec fn sha256_of(data: Seq<u8>) -> Seq<u8>;

/// SHA-256 applied twice to one flat byte sequence: the hash of every
/// non-leaf slot, a domain-separation measure against second-preimage
/// attacks.
pub open spec fn node_hash_flat(data: Seq<u8>) -> Seq<u8> {
    sha256_of(sha256_of(data))
}

/// The hash of an internal node from its two child hashes.
pub open spec fn node_hash_of(left: Seq<u8>, right: Seq<u8>) -> Seq<u8> {
    node_hash_flat(left + right)
}

/// Relies on rust-crypto's `Sha256` (`new`, `input`, `result`): `result`
/// writes the 32-byte SHA-256 digest of the bytes fed by `input`, a
/// deterministic function of those bytes alone.
#[verifier::external_body]
pub(crate) fn sha256_digest(data: &[u8]) -> (r: Vec<u8>)
    ensures
        r@ == sha256_of(data@),
        r@.len() == HASH_LEN,
{
    let mut engine = Sha256::new();
    engine.input(data);
    let mut out = vec![0u8; 32];
    engine.result(&mut out);
    out
}

/// The double-stage hash of a concatenated pair of child hashes.
pub(crate) fn node_hash(pair: &[u8]) -> (r: Vec<u8>)
    requires
        pair@.len() >= 2 * HASH_LEN,
    ensures
        r@ == node_hash_flat(pair@),
        r@.len() == HASH_LEN,
{
    let first = sha256_digest(pair);
    sha256_digest(first.as_slice())
}

} // verus!
