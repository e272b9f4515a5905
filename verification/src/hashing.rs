//! Chained hashing: iterated SHA3-512, used as a deterministic salt
//! generator for key derivation.

use vstd::prelude::*;
use vstd::slice::slice_to_vec;
use sha3::Digest;

verus! {

/// The SHA3-512 digest of `data`: named, not spelled out; the hash itself
/// is the outside crate's work.
pub uninterp spec fn sha3_512_of(data: Seq<u8>) -> Seq<u8>;

/// Relies on sha3::Sha3_512 through the Digest trait: the digest is 512
/// bits (64 bytes) and a function of the input bytes alone.
#[verifier::external_body]
fn sha3_512(data: &[u8]) -> (r: Vec<u8>)
    ensures
        r@ == sha3_512_of(data@),
        r@.len() == 64,
{
    sha3::Sha3_512::digest(data).to_vec()
}

/// `rounds` sequential applications of SHA3-512, each to the previous
/// output; zero rounds leave the data untouched.
pub open spec fn sha3_chain(data: Seq<u8>, rounds: nat) -> Seq<u8>
    decreases rounds,
{
    if rounds == 0 {
        data
    } else {
        sha3_512_of(sha3_chain(data, (rounds - 1) as nat))
    }
}

/// Hashes `data` with SHA3-512, re-hashing the output `iterations` times
/// in all; with zero iterations the input comes back unchanged.
pub fn sha3(data: &[u8], iterations: u32) -> (r: Vec<u8>)
    ensures
        r@ == sha3_chain(data@, iterations as nat),
        iterations >= 1 ==> r@.len() == 64,
{
    let mut hash: Vec<u8> = slice_to_vec(data);
    for i in 0..iterations
        invariant
            hash@ == sha3_chain(data@, i as nat),
            i >= 1 ==> hash@.len() == 64,
    {
        hash = sha3_512(hash.as_slice());
    }
    hash
}

/// With zero rounds the chained hash is the identity: the input bytes come
/// back exactly, not a hash of them.
pub proof fn lemma_chain_zero_rounds(data: Seq<u8>)
    ensures
        sha3_chain(data, 0) == data,
{
}

/// With at least one round the chained hash is the hash function applied
/// to the chain one round shorter: round `r` hashes the output of round
/// `r - 1`.
pub proof fn lemma_chain_unfolds(data: Seq<u8>, rounds: nat)
    requires
        rounds >= 1,
    ensures
        sha3_chain(data, rounds) == sha3_512_of(sha3_chain(data, (rounds - 1) as nat)),
{
}

} // verus!
