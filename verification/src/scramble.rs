//! Scrambling: combining word indices with key chunks.
//!
//! Each index is XOR-ed with its key chunk and reduced modulo the
//! word-list length. For a power-of-two length the XOR result is already a
//! valid index, the modulo changes nothing, and the transform is its own
//! inverse: scrambling twice with the same key gives the indices back.
//! For any other length the modulo can move an index and the round trip
//! is not guaranteed; every supported word list has a power-of-two count
//! of real words, so this stays a documented limitation, deliberately kept
//! for compatibility with sequences scrambled before.

use vstd::prelude::*;
use vstd::arithmetic::power2::{pow2, lemma2_to64};
use vstd::arithmetic::div_mod::lemma_small_mod;
use vstd::bits::lemma_usize_shl_is_mul;
use crate::bitsize::{clog2, lemma_clog2_le_16, lemma_clog2_of_pow2, bitwidth_of};
use crate::packer::{chunk_spec, chunks_spec, dividekey, lemma_chunk_bits_bound};
use crate::errors::ScrambleError;

verus! {

/// One scrambled index: XOR with the key chunk, then modulo the list
/// length.
pub open spec fn scramble_index(word: usize, chunk: u16, wordlist_len: usize) -> usize
    recommends
        wordlist_len >= 1,
{
    (word ^ (chunk as usize)) % wordlist_len
}

/// The whole scrambled sequence, over chunks of `clog2(wordlist_len)`
/// bits.
pub open spec fn scramble_seq(words: Seq<usize>, key: Seq<u8>, wordlist_len: usize) -> Seq<usize> {
    Seq::new(
        words.len(),
        |i: int| scramble_index(words[i], chunk_spec(key, clog2(wordlist_len as nat), i), wordlist_len),
    )
}

/// Scrambles (or, run again with the same key, recovers) the word indices
/// `words` over a list of `wordlist_len` words, using the 64-byte secret
/// key. Fails exactly when the indices need more chunk bits than the key
/// holds.
pub fn scramblewords(words: &Vec<usize>, secretkey: [u8; 64], wordlist_len: usize) -> (r: Result<
    Vec<usize>,
    ScrambleError,
>)
    requires
        1 <= wordlist_len <= 65536,
    ensures
        match r {
            Ok(nw) => words@.len() * clog2(wordlist_len as nat) <= 512 && nw@ == scramble_seq(
                words@,
                secretkey@,
                wordlist_len,
            ),
            Err(e) => words@.len() * clog2(wordlist_len as nat) > 512 && e
                == ScrambleError::InsufficientKeyMaterial,
        },
{
    proof {
        lemma_clog2_le_16(wordlist_len as nat);
    }
    let bitsize = bitwidth_of(wordlist_len);
    let chunks = match dividekey(secretkey, words.len(), bitsize) {
        Ok(c) => c,
        Err(e) => {
            return Err(e);
        },
    };
    let n = words.len();
    let mut newwords: Vec<usize> = Vec::new();
    for i in 0..n
        invariant
            n == words@.len(),
            1 <= wordlist_len <= 65536,
            chunks@ == chunks_spec(secretkey@, clog2(wordlist_len as nat), n as nat),
            newwords@.len() == i,
            forall|k: int|
                0 <= k < i ==> newwords@[k] == scramble_seq(words@, secretkey@, wordlist_len)[k],
    {
        let c = chunks[i];
        newwords.push((words[i] ^ (c as usize)) % wordlist_len);
    }
    proof {
        assert(newwords@ =~= scramble_seq(words@, secretkey@, wordlist_len));
    }
    Ok(newwords)
}

/// Scrambling is its own inverse when the word-list length is a power of
/// two: every chunk and every index then lie below the length, the XOR
/// stays below it too, the modulo changes nothing, and XOR-ing twice with
/// the same chunk gives the index back.
pub proof fn lemma_scramble_involution(
    words: Seq<usize>,
    key: Seq<u8>,
    wordlist_len: usize,
    b: nat,
)
    requires
        b <= 16,
        wordlist_len == pow2(b),
        forall|i: int| 0 <= i < words.len() ==> words[i] < wordlist_len,
    ensures
        scramble_seq(scramble_seq(words, key, wordlist_len), key, wordlist_len) == words,
{
    lemma_clog2_of_pow2(b);
    lemma2_to64();
    let once = scramble_seq(words, key, wordlist_len);
    let twice = scramble_seq(once, key, wordlist_len);
    assert forall|i: int| 0 <= i < words.len() implies twice[i] == words[i] by {
        let c = chunk_spec(key, b, i);
        lemma_chunk_bits_bound(key, i * b, b);
        lemma_usize_shl_is_mul(1, b as usize);
        let cv = c as usize;
        let xv = words[i];
        let bv = b as usize;
        assert((xv ^ cv) < (1usize << bv) && ((xv ^ cv) ^ cv) == xv) by (bit_vector)
            requires
                xv < (1usize << bv),
                cv < (1usize << bv),
                bv <= 16,
        ;
        lemma_small_mod((xv ^ cv) as nat, wordlist_len as nat);
        assert(once[i] == xv ^ cv);
        lemma_small_mod(xv as nat, wordlist_len as nat);
    }
    assert(twice =~= words);
}

} // verus!
