//! Word lists and recovery: mapping indices to words and saved lines back
//! to indices.
//!
//! A word list is an ordered array of words, possibly padded with empty
//! strings up to its physical size; real words are unique within a list.
//! A saved wallet is one word per line; recovery matches the lines against
//! each supported language in registry order and takes the first language
//! whose list contains every line.

use vstd::prelude::*;
use vstd::arithmetic::power2::pow2;
use crate::errors::ScrambleError;
use crate::scramble::{scramble_seq, lemma_scramble_involution};
use crate::bitsize::clog2;
use vstd::arithmetic::div_mod::lemma_mod_bound;

verus! {

/// Some entry of the list spells the word.
pub open spec fn contains_word(wl: Seq<String>, w: Seq<char>) -> bool {
    exists|k: int| 0 <= k < wl.len() && wl[k]@ == w
}

/// Every line names a word of the list.
pub open spec fn all_words_match(lines: Seq<String>, wl: Seq<String>) -> bool {
    forall|i: int| 0 <= i < lines.len() ==> contains_word(wl, #[trigger] lines[i]@)
}

/// `idx` maps every line to the first entry of the list that spells it.
pub open spec fn indexes_words(idx: Seq<usize>, lines: Seq<String>, wl: Seq<String>) -> bool {
    &&& idx.len() == lines.len()
    &&& forall|i: int|
        0 <= i < idx.len() ==> ((#[trigger] idx[i]) as int) < wl.len() && wl[idx[i] as int]@
            == lines[i]@
    &&& forall|i: int, k: int|
        0 <= i < idx.len() && 0 <= k < (#[trigger] idx[i] as int) ==> #[trigger] wl[k]@ != lines[i]@
}

/// Finds the word in the list: the index of its first occurrence, or
/// `WordNotFound` exactly when no entry spells it.
pub fn lookupword(wordlist: &Vec<String>, word: &String) -> (r: Result<usize, ScrambleError>)
    ensures
        match r {
            Ok(i) => i < wordlist@.len() && wordlist@[i as int]@ == word@ && (forall|k: int|
                0 <= k < i ==> wordlist@[k]@ != word@),
            Err(e) => e == ScrambleError::WordNotFound && (forall|k: int|
                0 <= k < wordlist@.len() ==> wordlist@[k]@ != word@),
        },
{
    let n = wordlist.len();
    for i in 0..n
        invariant
            n == wordlist@.len(),
            forall|k: int| 0 <= k < i ==> wordlist@[k]@ != word@,
    {
        if wordlist[i].eq(word) {
            return Ok(i);
        }
    }
    Err(ScrambleError::WordNotFound)
}

/// The words the indices name, in order.
pub open spec fn words_of(indices: Seq<usize>, wl: Seq<String>) -> Seq<Seq<char>> {
    Seq::new(indices.len(), |i: int| wl[indices[i] as int]@)
}

/// Spells out the indices as words, in order, ready to be printed or saved
/// one per line with nothing else in the file.
pub fn indices_to_words(indices: &Vec<usize>, wordlist: &Vec<String>) -> (r: Vec<String>)
    requires
        forall|i: int| 0 <= i < indices@.len() ==> (indices@[i] as int) < wordlist@.len(),
    ensures
        r@.len() == indices@.len(),
        forall|i: int| 0 <= i < r@.len() ==> r@[i]@ == words_of(indices@, wordlist@)[i],
{
    let n = indices.len();
    let mut words: Vec<String> = Vec::new();
    for i in 0..n
        invariant
            n == indices@.len(),
            forall|k: int| 0 <= k < indices@.len() ==> (indices@[k] as int) < wordlist@.len(),
            words@.len() == i,
            forall|k: int| 0 <= k < i ==> words@[k]@ == words_of(indices@, wordlist@)[k],
    {
        words.push(wordlist[indices[i]].clone());
    }
    words
}

/// Maps every line to its first index in one list; `None` exactly when
/// some line is absent from the list.
pub fn words_to_indices(lines: &Vec<String>, wordlist: &Vec<String>) -> (r: Option<Vec<usize>>)
    ensures
        match r {
            Some(idx) => indexes_words(idx@, lines@, wordlist@),
            None => !all_words_match(lines@, wordlist@),
        },
{
    let n = lines.len();
    let mut idx: Vec<usize> = Vec::new();
    let mut i: usize = 0;
    while i < n
        invariant
            n == lines@.len(),
            idx@.len() == i,
            i <= n,
            forall|k: int|
                0 <= k < i ==> ((#[trigger] idx@[k]) as int) < wordlist@.len()
                    && wordlist@[idx@[k] as int]@ == lines@[k]@,
            forall|k: int, m: int|
                0 <= k < i && 0 <= m < (#[trigger] idx@[k] as int) ==> #[trigger] wordlist@[m]@
                    != lines@[k]@,
        decreases n - i,
    {
        match lookupword(wordlist, &lines[i]) {
            Ok(j) => {
                idx.push(j);
                assert(idx@[i as int] == j);
                assert(wordlist@[j as int]@ == lines@[i as int]@);
            },
            Err(_) => {
                proof {
                    if all_words_match(lines@, wordlist@) {
                        assert(contains_word(wordlist@, lines@[i as int]@));
                        let k = choose|k: int|
                            0 <= k < wordlist@.len() && wordlist@[k]@ == lines@[i as int]@;
                        assert(wordlist@[k]@ != lines@[i as int]@);
                        assert(false);
                    }
                }
                return None;
            },
        }
        i = i + 1;
    }
    Some(idx)
}

/// Recovers a saved wallet: tries each language in registry order and maps
/// the lines through the first list that contains every one of them.
/// `UnsupportedWalletFile` exactly when no list does.
pub fn recoverwallet(lines: &Vec<String>, registry: &Vec<Vec<String>>) -> (r: Result<
    (usize, Vec<usize>),
    ScrambleError,
>)
    ensures
        match r {
            Ok((lang, idx)) => (lang as int) < registry@.len() && indexes_words(
                idx@,
                lines@,
                registry@[lang as int]@,
            ) && (forall|l: int| 0 <= l < lang ==> !all_words_match(lines@, registry@[l]@)),
            Err(e) => e == ScrambleError::UnsupportedWalletFile && (forall|l: int|
                0 <= l < registry@.len() ==> !all_words_match(lines@, registry@[l]@)),
        },
{
    let n = registry.len();
    for lang in 0..n
        invariant
            n == registry@.len(),
            forall|l: int| 0 <= l < lang ==> !all_words_match(lines@, registry@[l]@),
    {
        match words_to_indices(lines, &registry[lang]) {
            Some(idx) => {
                proof {
                    assert forall|i: int| 0 <= i < lines@.len() implies contains_word(
                        registry@[lang as int]@,
                        #[trigger] lines@[i]@,
                    ) by {
                        assert((idx@[i] as int) < registry@[lang as int]@.len());
                        assert(registry@[lang as int]@[idx@[i] as int]@ == lines@[i]@);
                    }
                    assert(all_words_match(lines@, registry@[lang as int]@));
                }
                return Ok((lang, idx));
            },
            None => {},
        }
    }
    Err(ScrambleError::UnsupportedWalletFile)
}

/// Real words are unique within a list: no two entries spell the same
/// non-empty word.
pub open spec fn distinct_words(wl: Seq<String>) -> bool {
    forall|a: int, b: int| 0 <= a < b < wl.len() ==> #[trigger] wl[a]@ != #[trigger] wl[b]@
}

/// Mapping indices to words and the words back to first indices is the
/// identity, as long as the list's entries are distinct.
pub proof fn lemma_words_round_trip(
    indices: Seq<usize>,
    wl: Seq<String>,
    lines: Seq<String>,
    idx2: Seq<usize>,
)
    requires
        distinct_words(wl),
        forall|i: int| 0 <= i < indices.len() ==> (indices[i] as int) < wl.len(),
        lines.len() == indices.len(),
        forall|i: int| 0 <= i < lines.len() ==> #[trigger] lines[i]@ == words_of(indices, wl)[i],
        indexes_words(idx2, lines, wl),
    ensures
        idx2 == indices,
{
    assert forall|i: int| 0 <= i < indices.len() implies idx2[i] == indices[i] by {
        assert(wl[idx2[i] as int]@ == lines[i]@);
        assert(lines[i]@ == wl[indices[i] as int]@);
        if (idx2[i] as int) < (indices[i] as int) {
            assert(wl[idx2[i] as int]@ != wl[indices[i] as int]@);
            assert(false);
        } else if (idx2[i] as int) > (indices[i] as int) {
            assert(wl[indices[i] as int]@ != lines[i]@);
            assert(false);
        }
    }
    assert(idx2 =~= indices);
}

/// Recovery round trip: scramble, save the result as one word per line,
/// map the lines back through the same (distinct-word) list, and scramble
/// again with the same key: the original indices come back, provided the
/// list length is a power of two.
pub proof fn lemma_recovery_round_trip(
    words: Seq<usize>,
    key: Seq<u8>,
    wordlist_len: usize,
    b: nat,
    wl: Seq<String>,
    lines: Seq<String>,
    recovered: Seq<usize>,
)
    requires
        b <= 16,
        wordlist_len == pow2(b),
        wl.len() == wordlist_len,
        distinct_words(wl),
        forall|i: int| 0 <= i < words.len() ==> words[i] < wordlist_len,
        lines.len() == words.len(),
        forall|i: int|
            0 <= i < lines.len() ==> #[trigger] lines[i]@ == words_of(
                scramble_seq(words, key, wordlist_len),
                wl,
            )[i],
        indexes_words(recovered, lines, wl),
    ensures
        scramble_seq(recovered, key, wordlist_len) == words,
{
    let scrambled = scramble_seq(words, key, wordlist_len);
    assert forall|i: int| 0 <= i < scrambled.len() implies scrambled[i] < wordlist_len by {
        lemma_mod_bound(
            (words[i] ^ (crate::packer::chunk_spec(key, clog2(wordlist_len as nat), i) as usize)) as int,
            wordlist_len as int,
        );
    }
    lemma_words_round_trip(scrambled, wl, lines, recovered);
    lemma_scramble_involution(words, key, wordlist_len, b);
}

} // verus!
