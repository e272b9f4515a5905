//! Suggestions for a mistyped word: entries sharing the word's four-letter
//! prefix first (in list order), then the entries nearest by edit
//! distance, closest first and alphabetically among equals, three
//! suggestions in all.

use vstd::prelude::*;
use vstd::relations::{sorted_by, total_ordering};
use vstd::seq_lib::{lemma_sorted_unique, to_multiset_insert, to_multiset_build};

verus! {

/// The Levenshtein edit distance between two strings: named, not spelled
/// out; the computation is the outside crate's work.
pub uninterp spec fn edit_distance_of(a: Seq<char>, b: Seq<char>) -> usize;

/// Relies on levenshtein::levenshtein: the edit distance between the two
/// strings, a function of their characters alone; equal strings are at
/// distance zero, and against an empty string the distance is the other
/// string's character count, as the crate's shortcut paths show.
#[verifier::external_body]
fn levdistance(a: &str, b: &str) -> (r: usize)
    ensures
        r == edit_distance_of(a@, b@),
        a@ == b@ ==> r == 0,
        a@.len() == 0 ==> r == b@.len(),
        b@.len() == 0 ==> r == a@.len(),
{
    levenshtein::levenshtein(a, b)
}

/// Lexicographic order on character sequences, by code point, the order
/// `str` comparison uses.
pub open spec fn lex_le(a: Seq<char>, b: Seq<char>) -> bool
    decreases a.len(),
{
    if a.len() == 0 {
        true
    } else if b.len() == 0 {
        false
    } else if a[0] == b[0] {
        lex_le(a.drop_first(), b.drop_first())
    } else {
        (a[0] as u32) < (b[0] as u32)
    }
}

proof fn lemma_lex_le_refl(a: Seq<char>)
    ensures
        lex_le(a, a),
    decreases a.len(),
{
    if a.len() > 0 {
        lemma_lex_le_refl(a.drop_first());
    }
}

proof fn lemma_lex_le_antisym(a: Seq<char>, b: Seq<char>)
    requires
        lex_le(a, b),
        lex_le(b, a),
    ensures
        a == b,
    decreases a.len(),
{
    if a.len() == 0 {
        assert(a =~= b);
    } else {
        assert(b.len() > 0);
        if a[0] == b[0] {
            assert(lex_le(a.drop_first(), b.drop_first()));
            assert(lex_le(b.drop_first(), a.drop_first()));
            lemma_lex_le_antisym(a.drop_first(), b.drop_first());
            assert(a.drop_first() == b.drop_first());
            assert(a.len() == b.len());
            assert forall|i: int| 0 <= i < a.len() implies a[i] == b[i] by {
                if i >= 1 {
                    assert(a[i] == a.drop_first()[i - 1]);
                    assert(b[i] == b.drop_first()[i - 1]);
                }
            }
            assert(a =~= b);
        }
    }
}

proof fn lemma_lex_le_trans(a: Seq<char>, b: Seq<char>, c: Seq<char>)
    requires
        lex_le(a, b),
        lex_le(b, c),
    ensures
        lex_le(a, c),
    decreases a.len(),
{
    if a.len() == 0 {
        assert(lex_le(a, c));
    } else if b.len() == 0 {
        assert(false);
    } else if c.len() == 0 {
        assert(false);
    } else if a[0] == b[0] && b[0] == c[0] {
        lemma_lex_le_trans(a.drop_first(), b.drop_first(), c.drop_first());
        assert(a[0] == c[0]);
        assert(lex_le(a, c));
    } else if a[0] == b[0] {
        assert((b[0] as u32) < (c[0] as u32));
        assert(a[0] != c[0]);
        assert(lex_le(a, c));
    } else if b[0] == c[0] {
        assert((a[0] as u32) < (b[0] as u32));
        assert(a[0] != c[0]);
        assert(lex_le(a, c));
    } else {
        assert((a[0] as u32) < (b[0] as u32));
        assert((b[0] as u32) < (c[0] as u32));
        assert(a[0] != c[0]);
        assert(lex_le(a, c));
    }
}

proof fn lemma_lex_le_connected(a: Seq<char>, b: Seq<char>)
    ensures
        lex_le(a, b) || lex_le(b, a),
    decreases a.len(),
{
    if a.len() > 0 && b.len() > 0 {
        if a[0] == b[0] {
            lemma_lex_le_connected(a.drop_first(), b.drop_first());
            assert(lex_le(a, b) || lex_le(b, a));
        } else {
            vstd::utf8::char_u32_cast(a[0], a[0] as u32);
            vstd::utf8::char_u32_cast(b[0], b[0] as u32);
            assert((a[0] as u32) != (b[0] as u32));
            assert(lex_le(a, b) || lex_le(b, a));
        }
    }
}

/// Order of two distance candidates `(distance, index)` over the list
/// `wl`: nearer first, then alphabetically by the indexed word, then by
/// list position, which is how a stable sort on distance-then-word leaves
/// candidates collected in list order.
pub open spec fn word_le(wl: Seq<String>, a: (usize, usize), b: (usize, usize)) -> bool {
    if a.0 != b.0 {
        a.0 < b.0
    } else if wl[a.1 as int]@ != wl[b.1 as int]@ {
        lex_le(wl[a.1 as int]@, wl[b.1 as int]@)
    } else {
        a.1 <= b.1
    }
}

/// The candidate order as a relation value, for sorting.
pub open spec fn word_order(wl: Seq<String>) -> spec_fn((usize, usize), (usize, usize)) -> bool {
    |a: (usize, usize), b: (usize, usize)| word_le(wl, a, b)
}

/// The candidate order is total: candidates can be sorted, and any two
/// sorted arrangements of the same candidates agree.
pub proof fn lemma_word_order_total(wl: Seq<String>)
    ensures
        total_ordering(word_order(wl)),
{
    let leq = word_order(wl);
    assert forall|x: (usize, usize)| #[trigger] leq(x, x) by {
        lemma_lex_le_refl(wl[x.1 as int]@);
    }
    assert forall|x: (usize, usize), y: (usize, usize)|
        #[trigger] leq(x, y) && #[trigger] leq(y, x) implies x == y by {
        if x.0 == y.0 {
            if wl[x.1 as int]@ != wl[y.1 as int]@ {
                lemma_lex_le_antisym(wl[x.1 as int]@, wl[y.1 as int]@);
            }
        }
    }
    assert forall|x: (usize, usize), y: (usize, usize), z: (usize, usize)|
        #[trigger] leq(x, y) && #[trigger] leq(y, z) implies leq(x, z) by {
        if x.0 == y.0 && y.0 == z.0 {
            let wx = wl[x.1 as int]@;
            let wy = wl[y.1 as int]@;
            let wz = wl[z.1 as int]@;
            if wx != wy && wy != wz {
                lemma_lex_le_trans(wx, wy, wz);
                if wx == wz {
                    lemma_lex_le_antisym(wx, wy);
                }
            }
        }
    }
    assert forall|x: (usize, usize), y: (usize, usize)| #[trigger]
        leq(x, y) || #[trigger] leq(y, x) by {
        if x.0 == y.0 && wl[x.1 as int]@ != wl[y.1 as int]@ {
            lemma_lex_le_connected(wl[x.1 as int]@, wl[y.1 as int]@);
        }
    }
}

fn word_le_exec(wordlist: &Vec<String>, a: (usize, usize), b: (usize, usize)) -> (r: bool)
    requires
        (a.1 as int) < wordlist@.len(),
        (b.1 as int) < wordlist@.len(),
    ensures
        r == word_le(wordlist@, a, b),
{
    if a.0 != b.0 {
        a.0 < b.0
    } else {
        let wa = &wordlist[a.1];
        let wb = &wordlist[b.1];
        if wa.eq(wb) {
            a.1 <= b.1
        } else {
            strlexle(wa, wb)
        }
    }
}

/// How `lex_le` looks after a shared prefix of `i` characters.
proof fn lemma_lex_le_at(a: Seq<char>, b: Seq<char>, i: int)
    requires
        0 <= i <= a.len(),
        i <= b.len(),
        forall|k: int| 0 <= k < i ==> a[k] == b[k],
    ensures
        (i < a.len() && i < b.len() && a[i] != b[i]) ==> lex_le(a, b) == ((a[i] as u32) < (
        b[i] as u32)),
        i == a.len() ==> lex_le(a, b),
        (i == b.len() && i < a.len()) ==> !lex_le(a, b),
    decreases i,
{
    if i > 0 {
        lemma_lex_le_at(a.drop_first(), b.drop_first(), i - 1);
    }
}

fn strlexle(a: &String, b: &String) -> (r: bool)
    ensures
        r == lex_le(a@, b@),
{
    let al = a.as_str().unicode_len();
    let bl = b.as_str().unicode_len();
    let mut i: usize = 0;
    while i < al && i < bl
        invariant
            al == a@.len(),
            bl == b@.len(),
            i <= al,
            i <= bl,
            forall|k: int| 0 <= k < i ==> a@[k] == b@[k],
        decreases al - i,
    {
        let ca = a.as_str().get_char(i);
        let cb = b.as_str().get_char(i);
        if ca != cb {
            proof {
                lemma_lex_le_at(a@, b@, i as int);
            }
            return (ca as u32) < (cb as u32);
        }
        i = i + 1;
    }
    proof {
        lemma_lex_le_at(a@, b@, i as int);
    }
    al <= bl
}

/// A candidate is near enough: at most three edits away.
pub open spec fn near_pred() -> spec_fn((usize, usize)) -> bool {
    |p: (usize, usize)| p.0 <= 3
}

/// Every list entry with its edit distance from the word, as
/// `(distance, index)`, in list order.
pub open spec fn all_pairs(word: Seq<char>, wl: Seq<String>) -> Seq<(usize, usize)> {
    Seq::new(wl.len(), |i: int| (edit_distance_of(word, wl[i]@), i as usize))
}

/// The candidates within distance three, in list order.
pub open spec fn distance_pairs(word: Seq<char>, wl: Seq<String>) -> Seq<(usize, usize)> {
    all_pairs(word, wl).filter(near_pred())
}

/// An entry suggests the word when both are at least four characters long
/// and agree on their first four.
pub open spec fn prefix_matches(w: Seq<char>, word: Seq<char>) -> bool {
    w.len() >= 4 && word.len() >= 4 && w.subrange(0, 4) == word.subrange(0, 4)
}

/// The prefix test as a predicate value, for filtering.
pub open spec fn prefix_pred(word: Seq<char>) -> spec_fn(String) -> bool {
    |w: String| prefix_matches(w@, word)
}

/// At most the first three.
pub open spec fn first_three(s: Seq<String>) -> Seq<String> {
    if s.len() > 3 {
        s.take(3)
    } else {
        s
    }
}

/// The prefix suggestions: the first three entries sharing the word's
/// four-character prefix, in list order; none when the word is short.
pub open spec fn prefix_suggestions(word: Seq<char>, wl: Seq<String>) -> Seq<String> {
    if word.len() < 4 {
        Seq::empty()
    } else {
        first_three(wl.filter(prefix_pred(word)))
    }
}

/// All suggestions: prefix matches first, then the nearest candidates in
/// candidate order, three in all when the list offers that many.
pub open spec fn suggestions_spec(word: Seq<char>, wl: Seq<String>) -> Seq<String> {
    let pre = prefix_suggestions(word, wl);
    if pre.len() >= 3 {
        pre
    } else {
        let sorted = distance_pairs(word, wl).sort_by(word_order(wl));
        let extra = if sorted.len() < 3 - pre.len() {
            sorted.len() as int
        } else {
            3 - pre.len()
        };
        pre + Seq::new(extra as nat, |k: int| wl[sorted[k].1 as int])
    }
}

fn sharesprefix(w: &String, word: &String) -> (r: bool)
    ensures
        r == prefix_matches(w@, word@),
{
    let wlen = w.as_str().unicode_len();
    let plen = word.as_str().unicode_len();
    if wlen < 4 || plen < 4 {
        return false;
    }
    let mut i: usize = 0;
    while i < 4
        invariant
            i <= 4,
            w@.len() >= 4,
            word@.len() >= 4,
            forall|k: int| 0 <= k < i ==> w@[k] == word@[k],
        decreases 4 - i,
    {
        let cw = w.as_str().get_char(i);
        let cp = word.as_str().get_char(i);
        if cw != cp {
            proof {
                if w@.subrange(0, 4) == word@.subrange(0, 4) {
                    assert(w@.subrange(0, 4)[i as int] == word@.subrange(0, 4)[i as int]);
                    assert(false);
                }
            }
            return false;
        }
        i = i + 1;
    }
    proof {
        assert(w@.subrange(0, 4) =~= word@.subrange(0, 4));
    }
    true
}

fn find_insert_pos(wordlist: &Vec<String>, out: &Vec<(usize, usize)>, x: (usize, usize)) -> (pos:
    usize)
    requires
        (x.1 as int) < wordlist@.len(),
        forall|k: int| 0 <= k < out@.len() ==> (#[trigger] out@[k].1 as int) < wordlist@.len(),
    ensures
        pos <= out@.len(),
        forall|k: int| 0 <= k < pos ==> word_le(wordlist@, #[trigger] out@[k], x),
        (pos as int) < out@.len() ==> !word_le(wordlist@, out@[pos as int], x),
{
    let m = out.len();
    for pos in 0..m
        invariant
            m == out@.len(),
            (x.1 as int) < wordlist@.len(),
            forall|k: int| 0 <= k < out@.len() ==> (#[trigger] out@[k].1 as int) < wordlist@.len(),
            forall|k: int| 0 <= k < pos ==> word_le(wordlist@, #[trigger] out@[k], x),
    {
        if !word_le_exec(wordlist, out[pos], x) {
            return pos;
        }
    }
    m
}

/// Sorts the distance candidates into candidate order.
fn sortcandidates(wordlist: &Vec<String>, v: &Vec<(usize, usize)>) -> (r: Vec<(usize, usize)>)
    requires
        forall|k: int| 0 <= k < v@.len() ==> (#[trigger] v@[k].1 as int) < wordlist@.len(),
    ensures
        r@.to_multiset() == v@.to_multiset(),
        sorted_by(r@, word_order(wordlist@)),
        forall|k: int| 0 <= k < r@.len() ==> (#[trigger] r@[k].1 as int) < wordlist@.len(),
{
    let n = v.len();
    let mut out: Vec<(usize, usize)> = Vec::new();
    proof {
        lemma_word_order_total(wordlist@);
        assert(out@ =~= v@.take(0));
    }
    for i in 0..n
        invariant
            n == v@.len(),
            forall|k: int| 0 <= k < v@.len() ==> (#[trigger] v@[k].1 as int) < wordlist@.len(),
            out@.to_multiset() == v@.take(i as int).to_multiset(),
            out@.len() == i,
            sorted_by(out@, word_order(wordlist@)),
            forall|k: int| 0 <= k < out@.len() ==> (#[trigger] out@[k].1 as int) < wordlist@.len(),
            total_ordering(word_order(wordlist@)),
    {
        let x = v[i];
        let pos = find_insert_pos(wordlist, &out, x);
        let ghost out0 = out@;
        out.insert(pos, x);
        proof {
            let leq = word_order(wordlist@);
            to_multiset_insert(out0, pos as int, x);
            assert(out@.to_multiset() == out0.to_multiset().insert(x));
            to_multiset_build(v@.take(i as int), v@[i as int]);
            assert(v@.take(i as int).push(v@[i as int]).to_multiset() == v@.take(
                i as int,
            ).to_multiset().insert(v@[i as int]));
            assert(v@.take(i + 1) =~= v@.take(i as int).push(v@[i as int]));
            assert(out0.to_multiset() == v@.take(i as int).to_multiset());
            assert(x == v@[i as int]);
            assert(out@.to_multiset() == v@.take(i + 1).to_multiset());
            if (pos as int) < out0.len() {
                assert(leq(out0[pos as int], x) == word_le(wordlist@, out0[pos as int], x));
                assert(leq(x, out0[pos as int]) == word_le(wordlist@, x, out0[pos as int]));
                assert(leq(x, out0[pos as int]));
            }
            assert forall|p: int, q: int| 0 <= p < q < out@.len() implies #[trigger] leq(
                out@[p],
                out@[q],
            ) by {
                if q < pos {
                    assert(leq(out0[p], out0[q]));
                } else if p < pos && q == pos {
                    assert(leq(out0[p], x));
                } else if p < pos && q > pos {
                    assert(leq(out0[p], out0[q - 1]));
                } else if p == pos && q > pos {
                    assert(leq(x, out0[pos as int]));
                    if q - 1 > pos {
                        assert(leq(out0[pos as int], out0[q - 1]));
                    }
                } else {
                    assert(leq(out0[p - 1], out0[q - 1]));
                }
            }
        }
    }
    proof {
        assert(v@.take(n as int) =~= v@);
    }
    out
}

/// Suggests up to three replacements for a word absent from the list:
/// entries sharing its four-character prefix first, in list order, then
/// the entries within three edits, nearest first and alphabetically among
/// equals.
pub fn find_suggestions(word: &String, wordlist: &Vec<String>) -> (r: Vec<String>)
    ensures
        r@ == suggestions_spec(word@, wordlist@),
{
    let n = wordlist.len();
    let mut sugg: Vec<String> = Vec::new();
    let wordlen = word.as_str().unicode_len();
    if wordlen >= 4 {
        for i in 0..n
            invariant
                n == wordlist@.len(),
                word@.len() >= 4,
                sugg@ == first_three(wordlist@.take(i as int).filter(prefix_pred(word@))),
                sugg@.len() <= 3,
        {
            let ghost pred = prefix_pred(word@);
            let ghost s_i = wordlist@.take(i as int).filter(pred);
            let matches = sharesprefix(&wordlist[i], word);
            if matches && sugg.len() < 3 {
                sugg.push(wordlist[i].clone());
            }
            proof {
                wordlist@.lemma_take_succ_push(i as int);
                wordlist@.take(i as int).lemma_filter_push(wordlist@[i as int], pred);
                let s_i1 = wordlist@.take(i + 1).filter(pred);
                if pred(wordlist@[i as int]) {
                    assert(s_i1 == s_i.push(wordlist@[i as int]));
                    if s_i.len() >= 3 {
                        assert(first_three(s_i1) =~= first_three(s_i));
                    } else {
                        assert(first_three(s_i1) =~= first_three(s_i).push(
                            wordlist@[i as int],
                        ));
                    }
                } else {
                    assert(s_i1 == s_i);
                }
            }
        }
        proof {
            assert(wordlist@.take(n as int) =~= wordlist@);
        }
    }
    proof {
        assert(sugg@ == prefix_suggestions(word@, wordlist@));
    }
    if sugg.len() >= 3 {
        return sugg;
    }
    // Fill with the nearest candidates by edit distance.
    let mut cands: Vec<(usize, usize)> = Vec::new();
    for i in 0..n
        invariant
            n == wordlist@.len(),
            cands@ == all_pairs(word@, wordlist@.take(i as int)).filter(near_pred()),
            forall|k: int| 0 <= k < cands@.len() ==> (#[trigger] cands@[k].1 as int) < i as int,
    {
        let ghost a_i = all_pairs(word@, wordlist@.take(i as int));
        let d = levdistance(word.as_str(), wordlist[i].as_str());
        if d <= 3 {
            cands.push((d, i));
        }
        proof {
            let a_i1 = all_pairs(word@, wordlist@.take(i + 1));
            let pair = (edit_distance_of(word@, wordlist@[i as int]@), i as usize);
            assert(a_i1 =~= a_i.push(pair));
            a_i.lemma_filter_push(pair, near_pred());
            if near_pred()(pair) {
                assert(a_i1.filter(near_pred()) == a_i.filter(near_pred()).push(pair));
            } else {
                assert(a_i1.filter(near_pred()) == a_i.filter(near_pred()));
            }
        }
    }
    proof {
        assert(wordlist@.take(n as int) =~= wordlist@);
        assert(cands@ == distance_pairs(word@, wordlist@));
    }
    let sorted = sortcandidates(wordlist, &cands);
    proof {
        lemma_word_order_total(wordlist@);
        distance_pairs(word@, wordlist@).lemma_sort_by_ensures(word_order(wordlist@));
        lemma_sorted_unique(
            sorted@,
            distance_pairs(word@, wordlist@).sort_by(word_order(wordlist@)),
            word_order(wordlist@),
        );
        assert(sorted@ == distance_pairs(word@, wordlist@).sort_by(word_order(wordlist@)));
    }
    let ghost pre = sugg@;
    let m = sorted.len();
    let mut j: usize = 0;
    while j < m && sugg.len() < 3
        invariant
            m == sorted@.len(),
            n == wordlist@.len(),
            forall|k: int| 0 <= k < sorted@.len() ==> (#[trigger] sorted@[k].1 as int)
                < wordlist@.len(),
            j <= m,
            sugg@.len() == pre.len() + j,
            pre.len() + j <= 3,
            sugg@ == pre + Seq::new(j as nat, |k: int| wordlist@[sorted@[k].1 as int]),
        decreases m - j,
    {
        sugg.push(wordlist[sorted[j].1].clone());
        j = j + 1;
        proof {
            assert(sugg@ =~= pre + Seq::new(j as nat, |k: int| wordlist@[sorted@[k].1 as int]));
        }
    }
    proof {
        let extra = if sorted@.len() < 3 - pre.len() {
            sorted@.len() as int
        } else {
            3 - pre.len()
        };
        assert(j == extra);
        assert(sugg@ == suggestions_spec(word@, wordlist@));
    }
    sugg
}

} // verus!
