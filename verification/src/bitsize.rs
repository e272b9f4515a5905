//! Word-list bit width: how many bits one word index needs.

use vstd::prelude::*;
use vstd::arithmetic::power2::{
    pow2, lemma_pow2_unfold, lemma_pow2_pos, lemma_pow2_strictly_increases, lemma2_to64,
};

verus! {

/// Ceiling of the base-two logarithm: the number of bits needed to tell
/// apart the indices of a list of `n` entries.
pub open spec fn clog2(n: nat) -> nat
    decreases n,
{
    if n <= 1 {
        0
    } else {
        1 + clog2((n + 1) / 2)
    }
}

/// How many entries of a word list are real words: a list may be padded
/// with empty strings up to a fixed physical size.
pub open spec fn count_nonempty(wl: Seq<String>) -> nat
    decreases wl.len(),
{
    if wl.len() == 0 {
        0
    } else {
        count_nonempty(wl.drop_last()) + (if wl.last()@.len() == 0 {
            0nat
        } else {
            1nat
        })
    }
}

/// Two to the `clog2(n)` reaches `n`, and no smaller power of two does.
pub proof fn lemma_clog2_bounds(n: nat)
    ensures
        n >= 1 ==> pow2(clog2(n)) >= n,
        n >= 2 ==> pow2((clog2(n) - 1) as nat) < n,
    decreases n,
{
    lemma2_to64();
    if n >= 2 {
        let m = ((n + 1) / 2) as nat;
        lemma_clog2_bounds(m);
        lemma_pow2_unfold(clog2(n));
        if m >= 2 {
            lemma_pow2_unfold(clog2(m));
        }
    }
}

/// Only `clog2(n)` satisfies the two bounds above.
pub proof fn lemma_clog2_is_unique(n: nat, b: nat)
    requires
        pow2(b) >= n,
        b > 0 ==> pow2((b - 1) as nat) < n,
    ensures
        b == clog2(n),
{
    lemma2_to64();
    lemma_clog2_bounds(n);
    let c = clog2(n);
    if b < c {
        if b < c - 1 {
            lemma_pow2_strictly_increases(b, (c - 1) as nat);
        }
        assert(false);
    } else if b > c {
        if b - 1 > c {
            lemma_pow2_strictly_increases(c, (b - 1) as nat);
        }
        if n == 0 {
            lemma_pow2_pos((b - 1) as nat);
        }
        assert(false);
    }
}

/// On an exact power of two the ceiling logarithm is the exponent.
pub proof fn lemma_clog2_of_pow2(b: nat)
    ensures
        clog2(pow2(b)) == b,
{
    if b > 0 {
        lemma_pow2_strictly_increases((b - 1) as nat, b);
    }
    lemma_clog2_is_unique(pow2(b), b);
}

/// Lists of up to 65536 entries need at most 16 index bits.
pub proof fn lemma_clog2_le_16(n: nat)
    requires
        n <= 65536,
    ensures
        clog2(n) <= 16,
{
    lemma2_to64();
    let c = clog2(n);
    if c > 16 {
        lemma_clog2_bounds(n);
        if c - 1 > 16 {
            lemma_pow2_strictly_increases(16, (c - 1) as nat);
        }
        assert(false);
    }
}

/// The number of bits needed to index `n` distinct entries.
pub fn bitwidth_of(n: usize) -> (r: usize)
    requires
        n <= 65536,
    ensures
        r == clog2(n as nat),
{
    let mut bits: usize = 0;
    let mut cap: usize = 1;
    proof {
        lemma2_to64();
    }
    while cap < n
        invariant
            n <= 65536,
            cap >= 1,
            cap == pow2(bits as nat),
            bits > 0 ==> pow2((bits - 1) as nat) < n,
            bits <= 17,
        decreases 2 * n - cap,
    {
        proof {
            lemma_pow2_unfold((bits + 1) as nat);
            lemma2_to64();
            if bits + 1 > 17 {
                lemma_pow2_strictly_increases(17, (bits + 1) as nat);
            }
            if bits >= 17 {
                lemma_pow2_strictly_increases(17, (bits + 1) as nat);
                assert(pow2(17) == 131072);
                assert(false);
            }
        }
        cap = cap * 2;
        bits = bits + 1;
    }
    proof {
        lemma_clog2_is_unique(n as nat, bits as nat);
    }
    bits
}

/// The bit width of one index into the given word list, counting only its
/// real (non-empty) words: a list of 2048 words needs 11 bits, one of 1024
/// words 10.
pub fn getwordlistbitsize(wordlist: &Vec<String>) -> (r: usize)
    requires
        wordlist@.len() <= 65536,
    ensures
        r == clog2(count_nonempty(wordlist@)),
{
    let mut count: usize = 0;
    let n = wordlist.len();
    for i in 0..n
        invariant
            n == wordlist@.len() <= 65536,
            count == count_nonempty(wordlist@.take(i as int)),
            count <= i,
    {
        proof {
            assert(wordlist@.take(i + 1).drop_last() =~= wordlist@.take(i as int));
            assert(wordlist@.take(i + 1).last() == wordlist@[i as int]);
        }
        if !wordlist[i].as_str().is_empty() {
            count = count + 1;
        }
    }
    proof {
        assert(wordlist@.take(n as int) =~= wordlist@);
    }
    bitwidth_of(count)
}

} // verus!
