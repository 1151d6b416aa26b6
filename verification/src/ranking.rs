//! Ranking a pool by letter coverage: the words that reach most of the pool
//! come first.

use crate::scoring::{coverage, letter_presence_counts, presence_count, tally_count, total_count};
use crate::text::{distinct, lemma_distinct_properties, spellings};
use vstd::prelude::*;

verus! {

/// The coverage of `word` in `pool`: for each distinct letter of `word`, the
/// number of words of the pool that hold it, summed up. Divided by the size of
/// the pool it is the sum of the frequencies of the letters.
pub open spec fn pool_coverage(pool: Seq<Seq<char>>, word: Seq<char>) -> nat {
    letter_sum(pool, distinct(word))
}

/// The sum over `letters` of the number of words of `pool` that hold each.
pub open spec fn letter_sum(pool: Seq<Seq<char>>, letters: Seq<char>) -> nat
    decreases letters.len(),
{
    if letters.len() == 0 {
        0
    } else {
        letter_sum(pool, letters.drop_last()) + presence_count(pool, letters.last())
    }
}

/// The entries of a ranking before they are ordered: each score with its
/// place in the list.
pub open spec fn placed(scores: Seq<u128>) -> Seq<(usize, u128)> {
    Seq::new(scores.len(), |i: int| (i as usize, scores[i]))
}

/// The coverage of each word of a pool, in the order of the pool.
pub open spec fn coverages(pool: Seq<Seq<char>>) -> Seq<u128> {
    Seq::new(pool.len(), |i: int| pool_coverage(pool, pool[i]) as u128)
}

/// The entries of the ranking of a pool before they are ordered: each word of
/// the pool by its place, with its coverage.
pub open spec fn scored(pool: Seq<Seq<char>>) -> Seq<(usize, u128)> {
    placed(coverages(pool))
}

/// Whether entry `a` stands before entry `b` in a ranking: the higher score
/// first, and of two entries with the same score the one that stood first in
/// the pool.
pub open spec fn ranks_before(a: (usize, u128), b: (usize, u128)) -> bool {
    a.1 > b.1 || (a.1 == b.1 && a.0 < b.0)
}

/// Whether the entries stand in ranking order.
pub open spec fn ranked(s: Seq<(usize, u128)>) -> bool {
    forall|i: int, j: int| 0 <= i < j < s.len() ==> ranks_before(s[i], s[j])
}

/// Whether no two entries speak of the same place.
spec fn places_differ(s: Seq<(usize, u128)>) -> bool {
    forall|i: int, j: int| 0 <= i < j < s.len() ==> s[i].0 != s[j].0
}

/// A tally that agrees with the pool on every letter gives the coverage of the
/// pool.
pub proof fn lemma_total_count_is_letter_sum(
    pool: Seq<Seq<char>>,
    tally: Seq<(char, usize)>,
    letters: Seq<char>,
)
    requires
        forall|c: char| tally_count(tally, c) == presence_count(pool, c),
    ensures
        total_count(letters, tally) == letter_sum(pool, letters),
    decreases letters.len(),
{
    if letters.len() > 0 {
        lemma_total_count_is_letter_sum(pool, tally, letters.drop_last());
    }
}

/// The letter sum is at most the size of the pool for each letter.
proof fn lemma_letter_sum_bound(pool: Seq<Seq<char>>, letters: Seq<char>)
    ensures
        letter_sum(pool, letters) <= letters.len() * pool.len(),
    decreases letters.len(),
{
    if letters.len() > 0 {
        lemma_letter_sum_bound(pool, letters.drop_last());
        pool.lemma_filter_len(|w: Seq<char>| w.contains(letters.last()));
        assert((letters.len() - 1) * pool.len() + pool.len() == letters.len() * pool.len())
            by (nonlinear_arith);
    }
}

/// No word covers more than the whole pool with each of its distinct letters:
/// its coverage divided by the size of the pool is at most the number of its
/// distinct letters.
pub proof fn lemma_coverage_bound(pool: Seq<Seq<char>>, word: Seq<char>)
    ensures
        pool_coverage(pool, word) <= distinct(word).len() * pool.len(),
        distinct(word).len() <= word.len(),
{
    lemma_letter_sum_bound(pool, distinct(word));
    lemma_distinct_properties(word);
}

/// In a pool of one word, every letter of the word is held by one word.
proof fn lemma_letter_sum_single(word: Seq<char>, letters: Seq<char>)
    requires
        forall|i: int| 0 <= i < letters.len() ==> word.contains(#[trigger] letters[i]),
    ensures
        letter_sum(seq![word], letters) == letters.len(),
    decreases letters.len(),
{
    if letters.len() > 0 {
        let front = letters.drop_last();
        assert forall|i: int| 0 <= i < front.len() implies word.contains(#[trigger] front[i]) by {
            assert(front[i] == letters[i]);
        }
        lemma_letter_sum_single(word, front);
        let c = letters.last();
        assert(word.contains(letters[letters.len() - 1]));
        let holds = |w: Seq<char>| w.contains(c);
        Seq::<Seq<char>>::empty().lemma_filter_push(word, holds);
        assert(Seq::<Seq<char>>::empty().push(word) =~= seq![word]);
        assert(Seq::<Seq<char>>::empty().filter(holds) =~= Seq::<Seq<char>>::empty());
    }
}

/// In a pool of one word, the coverage of that word is the number of its
/// distinct letters: a count that is never negative and never more than the
/// length of the word.
pub proof fn lemma_single_word_coverage(word: Seq<char>)
    ensures
        pool_coverage(seq![word], word) == distinct(word).len(),
        pool_coverage(seq![word], word) <= word.len(),
        scored(seq![word]) == seq![(0usize, distinct(word).len() as u128)],
{
    lemma_distinct_properties(word);
    assert forall|i: int| 0 <= i < distinct(word).len() implies word.contains(
        #[trigger] distinct(word)[i],
    ) by {
        assert(distinct(word).contains(distinct(word)[i]));
    }
    lemma_letter_sum_single(word, distinct(word));
    assert(scored(seq![word]) =~= seq![(0usize, distinct(word).len() as u128)]);
}

/// Two rankings of the same entries are the same ranking: the order of a
/// ranking leaves nothing open.
pub proof fn lemma_ranking_is_unique(a: Seq<(usize, u128)>, b: Seq<(usize, u128)>)
    requires
        ranked(a),
        ranked(b),
        a.to_multiset() == b.to_multiset(),
    ensures
        a == b,
    decreases a.len(),
{
    broadcast use vstd::seq_lib::to_multiset_contains;

    a.to_multiset_ensures();
    b.to_multiset_ensures();
    assert(a.len() == b.len());
    if a.len() > 0 {
        let x = a.last();
        let y = b.last();
        assert(a.contains(x));
        assert(b.contains(y));
        assert(b.to_multiset().count(x) > 0);
        assert(a.to_multiset().count(y) > 0);
        assert(b.contains(x));
        assert(a.contains(y));
        let i = choose|i: int| 0 <= i < b.len() && b[i] == x;
        let j = choose|j: int| 0 <= j < a.len() && a[j] == y;
        assert(x == y) by {
            if i < b.len() - 1 {
                assert(ranks_before(b[i], b[b.len() - 1]));
            }
            if j < a.len() - 1 {
                assert(ranks_before(a[j], a[a.len() - 1]));
            }
        }
        let a0 = a.drop_last();
        let b0 = b.drop_last();
        assert(a =~= a0.push(x));
        assert(b =~= b0.push(x));
        vstd::seq_lib::to_multiset_build(a0, x);
        vstd::seq_lib::to_multiset_build(b0, x);
        assert(a0.to_multiset() =~= a.to_multiset().remove(x));
        assert(b0.to_multiset() =~= b.to_multiset().remove(x));
        assert(ranked(a0)) by {
            assert forall|i: int, j: int| 0 <= i < j < a0.len() implies ranks_before(
                a0[i],
                a0[j],
            ) by {
                assert(ranks_before(a[i], a[j]));
            }
        }
        assert(ranked(b0)) by {
            assert forall|i: int, j: int| 0 <= i < j < b0.len() implies ranks_before(
                b0[i],
                b0[j],
            ) by {
                assert(ranks_before(b[i], b[j]));
            }
        }
        lemma_ranking_is_unique(a0, b0);
    } else {
        assert(a =~= b);
    }
}

/// The ranking of one score is that score alone, at the first place, whatever
/// the score is.
pub proof fn lemma_single_score_ranking(score: u128, ranking: Seq<(usize, u128)>)
    requires
        ranked(ranking),
        ranking.to_multiset() == placed(seq![score]).to_multiset(),
    ensures
        ranking == seq![(0usize, score)],
{
    assert(placed(seq![score]) =~= seq![(0usize, score)]);
    lemma_ranking_is_unique(ranking, placed(seq![score]));
}

/// Ranking is reproducible: two rankings of the same scores are equal entry by
/// entry, the order of equal scores included.
pub proof fn lemma_same_scores_same_ranking(
    scores: Seq<u128>,
    other: Seq<u128>,
    first: Seq<(usize, u128)>,
    second: Seq<(usize, u128)>,
)
    requires
        scores == other,
        ranked(first),
        ranked(second),
        first.to_multiset() == placed(scores).to_multiset(),
        second.to_multiset() == placed(other).to_multiset(),
    ensures
        first == second,
{
    lemma_ranking_is_unique(first, second);
}

/// The ranking of a pool of one word is that word alone, with the number of
/// its distinct letters for its coverage.
pub proof fn lemma_single_word_ranking(word: Seq<char>, ranking: Seq<(usize, u128)>)
    requires
        ranked(ranking),
        ranking.to_multiset() == scored(seq![word]).to_multiset(),
    ensures
        ranking == seq![(0usize, distinct(word).len() as u128)],
        distinct(word).len() <= word.len(),
{
    lemma_single_word_coverage(word);
    lemma_ranking_is_unique(ranking, scored(seq![word]));
}

/// Merges two rankings into one.
fn merge(left: &Vec<(usize, u128)>, right: &Vec<(usize, u128)>) -> (r: Vec<(usize, u128)>)
    requires
        ranked(left@),
        ranked(right@),
        forall|i: int, j: int|
            0 <= i < left@.len() && 0 <= j < right@.len() ==> left@[i].0 != right@[j].0,
    ensures
        ranked(r@),
        r@.to_multiset() == left@.to_multiset().add(right@.to_multiset()),
{
    broadcast use {
        vstd::seq_lib::group_to_multiset_ensures,
        vstd::multiset::group_multiset_axioms,
    };

    let mut out: Vec<(usize, u128)> = Vec::new();
    let mut i: usize = 0;
    let mut j: usize = 0;
    assert(left@.take(0) =~= Seq::empty());
    assert(right@.take(0) =~= Seq::empty());
    assert(out@.to_multiset() =~= left@.take(0).to_multiset().add(right@.take(0).to_multiset()));
    while i < left.len() || j < right.len()
        invariant
            i <= left@.len(),
            j <= right@.len(),
            ranked(left@),
            ranked(right@),
            forall|a: int, b: int|
                0 <= a < left@.len() && 0 <= b < right@.len() ==> left@[a].0 != right@[b].0,
            ranked(out@),
            out@.to_multiset() == left@.take(i as int).to_multiset().add(
                right@.take(j as int).to_multiset(),
            ),
            forall|k: int|
                0 <= k < out@.len() && i < left@.len() ==> ranks_before(
                    #[trigger] out@[k],
                    left@[i as int],
                ),
            forall|k: int|
                0 <= k < out@.len() && j < right@.len() ==> ranks_before(
                    #[trigger] out@[k],
                    right@[j as int],
                ),
        decreases left@.len() - i + right@.len() - j,
    {
        let ghost prev = out@;
        let take_left = if i < left.len() && j < right.len() {
            let a = left[i];
            let b = right[j];
            a.1 > b.1 || (a.1 == b.1 && a.0 < b.0)
        } else {
            i < left.len()
        };
        if take_left {
            let e = left[i];
            let ghost taken = left@.take(i as int);
            assert(left@.take(i + 1) =~= taken.push(e));
            out.push(e);
            i += 1;
            assert(out@ == prev.push(e));
            proof {
                vstd::seq_lib::to_multiset_build(prev, e);
                vstd::seq_lib::to_multiset_build(taken, e);
            }
            assert(out@.to_multiset() =~= left@.take(i as int).to_multiset().add(
                right@.take(j as int).to_multiset(),
            ));
            assert(ranked(out@)) by {
                assert forall|p: int, q: int| 0 <= p < q < out@.len() implies ranks_before(
                    out@[p],
                    out@[q],
                ) by {
                    if q == prev.len() {
                        assert(ranks_before(prev[p], e));
                    } else {
                        assert(ranks_before(prev[p], prev[q]));
                    }
                }
            }
            assert forall|k: int| 0 <= k < out@.len() && i < left@.len() implies ranks_before(
                #[trigger] out@[k],
                left@[i as int],
            ) by {
                assert(ranks_before(left@[i - 1], left@[i as int]));
                if k < prev.len() {
                    assert(ranks_before(prev[k], e));
                }
            }
            assert forall|k: int| 0 <= k < out@.len() && j < right@.len() implies ranks_before(
                #[trigger] out@[k],
                right@[j as int],
            ) by {
                if k < prev.len() {
                    assert(ranks_before(prev[k], right@[j as int]));
                }
            }
        } else {
            let e = right[j];
            let ghost taken = right@.take(j as int);
            assert(right@.take(j + 1) =~= taken.push(e));
            out.push(e);
            j += 1;
            assert(out@ == prev.push(e));
            proof {
                vstd::seq_lib::to_multiset_build(prev, e);
                vstd::seq_lib::to_multiset_build(taken, e);
            }
            assert(out@.to_multiset() =~= left@.take(i as int).to_multiset().add(
                right@.take(j as int).to_multiset(),
            ));
            assert(ranked(out@)) by {
                assert forall|p: int, q: int| 0 <= p < q < out@.len() implies ranks_before(
                    out@[p],
                    out@[q],
                ) by {
                    if q == prev.len() {
                        assert(ranks_before(prev[p], e));
                    } else {
                        assert(ranks_before(prev[p], prev[q]));
                    }
                }
            }
            assert forall|k: int| 0 <= k < out@.len() && j < right@.len() implies ranks_before(
                #[trigger] out@[k],
                right@[j as int],
            ) by {
                assert(ranks_before(right@[j - 1], right@[j as int]));
                if k < prev.len() {
                    assert(ranks_before(prev[k], e));
                }
            }
            assert forall|k: int| 0 <= k < out@.len() && i < left@.len() implies ranks_before(
                #[trigger] out@[k],
                left@[i as int],
            ) by {
                if k < prev.len() {
                    assert(ranks_before(prev[k], left@[i as int]));
                } else {
                    assert(left@[i as int].0 != e.0);
                }
            }
        }
    }
    assert(left@.take(left@.len() as int) =~= left@);
    assert(right@.take(right@.len() as int) =~= right@);
    out
}

/// Puts entries that speak of different places into ranking order.
fn sort_entries(entries: Vec<(usize, u128)>) -> (r: Vec<(usize, u128)>)
    requires
        places_differ(entries@),
    ensures
        ranked(r@),
        r@.to_multiset() == entries@.to_multiset(),
    decreases entries@.len(),
{
    broadcast use vstd::seq_lib::to_multiset_contains;

    if entries.len() <= 1 {
        return entries;
    }
    let ghost all = entries@;
    let mut left = entries;
    let right = left.split_off(left.len() / 2);
    let ghost l0 = left@;
    let ghost r0 = right@;
    assert(all =~= l0 + r0);
    assert(places_differ(l0)) by {
        assert forall|i: int, j: int| 0 <= i < j < l0.len() implies l0[i].0 != l0[j].0 by {
            assert(all[i].0 != all[j].0);
        }
    }
    assert(places_differ(r0)) by {
        assert forall|i: int, j: int| 0 <= i < j < r0.len() implies r0[i].0 != r0[j].0 by {
            assert(all[l0.len() + i].0 != all[l0.len() + j].0);
        }
    }
    let left = sort_entries(left);
    let right = sort_entries(right);
    assert forall|i: int, j: int|
        0 <= i < left@.len() && 0 <= j < right@.len() implies left@[i].0 != right@[j].0 by {
        assert(left@.contains(left@[i]));
        assert(right@.contains(right@[j]));
        assert(l0.to_multiset().count(left@[i]) > 0);
        assert(r0.to_multiset().count(right@[j]) > 0);
        assert(l0.contains(left@[i]));
        assert(r0.contains(right@[j]));
        let a = choose|a: int| 0 <= a < l0.len() && l0[a] == left@[i];
        let b = choose|b: int| 0 <= b < r0.len() && r0[b] == right@[j];
        assert(all[a].0 != all[l0.len() + b].0);
    }
    proof {
        vstd::seq_lib::lemma_multiset_commutative(l0, r0);
    }
    merge(&left, &right)
}

/// Ranks the places of a list of scores.
///
/// Each entry gives a place in `scores` and the score that stands there. The
/// entries come in ranking order: the highest score first, equal scores in
/// the order of the list.
pub fn rank_by_score(scores: &Vec<u128>) -> (r: Vec<(usize, u128)>)
    ensures
        r@.to_multiset() == placed(scores@).to_multiset(),
        ranked(r@),
        r@.len() == scores@.len(),
        forall|k: int|
            0 <= k < r@.len() ==> (#[trigger] r@[k]).0 < scores@.len() && r@[k].1
                == scores@[r@[k].0 as int],
{
    let mut entries: Vec<(usize, u128)> = Vec::new();
    for i in 0..scores.len()
        invariant
            entries@ == placed(scores@).take(i as int),
    {
        entries.push((i, scores[i]));
        assert(entries@ =~= placed(scores@).take(i + 1));
    }
    assert(placed(scores@).take(scores@.len() as int) =~= placed(scores@));
    let r = sort_entries(entries);
    proof {
        r@.to_multiset_ensures();
        placed(scores@).to_multiset_ensures();
        assert forall|k: int| 0 <= k < r@.len() implies (#[trigger] r@[k]).0 < scores@.len()
            && r@[k].1 == scores@[r@[k].0 as int] by {
            assert(r@.contains(r@[k]));
            assert(placed(scores@).to_multiset().count(r@[k]) > 0);
            assert(placed(scores@).contains(r@[k]));
            let i = choose|i: int| 0 <= i < placed(scores@).len() && placed(scores@)[i] == r@[k];
            assert(r@[k].0 == i);
        }
    }
    r
}

/// Ranks the words of a pool by their coverage of the pool.
///
/// Each entry gives the place of a word in `words` and the coverage of that
/// word. The entries come in ranking order: the highest coverage first, words
/// of equal coverage in the order of the pool.
pub fn rank_by_coverage(words: &Vec<String>) -> (r: Vec<(usize, u128)>)
    ensures
        r@.to_multiset() == scored(spellings(words@)).to_multiset(),
        ranked(r@),
        r@.len() == words@.len(),
        forall|k: int|
            0 <= k < r@.len() ==> (#[trigger] r@[k]).0 < words@.len() && r@[k].1 == pool_coverage(
                spellings(words@),
                words@[r@[k].0 as int]@,
            ),
{
    let ghost pool = spellings(words@);
    let tally = letter_presence_counts(words);
    let mut scores: Vec<u128> = Vec::new();
    for i in 0..words.len()
        invariant
            pool == spellings(words@),
            forall|c: char| tally_count(tally@, c) == presence_count(pool, c),
            scores@ == coverages(pool).take(i as int),
            forall|j: int| 0 <= j < scores@.len() ==> scores@[j] == pool_coverage(pool, pool[j]),
    {
        let c = coverage(words[i].as_str(), &tally);
        proof {
            lemma_total_count_is_letter_sum(pool, tally@, distinct(pool[i as int]));
        }
        scores.push(c);
        assert(scores@ =~= coverages(pool).take(i + 1));
        assert(forall|j: int| 0 <= j < scores@.len() ==> scores@[j] == pool_coverage(pool, pool[j]));
    }
    assert(coverages(pool).take(words@.len() as int) =~= coverages(pool));
    rank_by_score(&scores)
}

} // verus!
