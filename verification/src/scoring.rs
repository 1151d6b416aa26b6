//! Letter coverage: how many words of a pool hold each letter, and how much of
//! the pool the distinct letters of a word reach.

use crate::text::{
    chars_of, distinct, has_char, lemma_contains_concat, lemma_contains_push,
    lemma_distinct_properties, lemma_distinct_push, spellings,
};
use vstd::prelude::*;

verus! {

/// The number of words of `words` in which `c` occurs.
pub open spec fn presence_count(words: Seq<Seq<char>>, c: char) -> nat {
    words.filter(|w: Seq<char>| w.contains(c)).len()
}

/// The letters of a tally, in its order.
pub open spec fn tally_letters(tally: Seq<(char, usize)>) -> Seq<char> {
    tally.map_values(|e: (char, usize)| e.0)
}

/// The count that `tally` gives for `c`: that of the first entry for `c`, or
/// zero where there is none.
pub open spec fn tally_count(tally: Seq<(char, usize)>, c: char) -> nat
    decreases tally.len(),
{
    if tally.len() == 0 {
        0
    } else if tally[0].0 == c {
        tally[0].1 as nat
    } else {
        tally_count(tally.drop_first(), c)
    }
}

/// The sum of the counts that `tally` gives for `letters`.
pub open spec fn total_count(letters: Seq<char>, tally: Seq<(char, usize)>) -> nat
    decreases letters.len(),
{
    if letters.len() == 0 {
        0
    } else {
        total_count(letters.drop_last(), tally) + tally_count(tally, letters.last())
    }
}

/// The coverage of `word` under `tally`: the sum of the counts of its distinct
/// letters. A letter that `word` repeats is counted once.
pub open spec fn coverage_of(word: Seq<char>, tally: Seq<(char, usize)>) -> nat {
    total_count(distinct(word), tally)
}

/// What a tally with distinct letters gives for the letter of one of its
/// entries is the count of that entry.
proof fn lemma_tally_count_at(tally: Seq<(char, usize)>, i: int)
    requires
        tally_letters(tally).no_duplicates(),
        0 <= i < tally.len(),
    ensures
        tally_count(tally, tally[i].0) == tally[i].1,
    decreases tally.len(),
{
    if i > 0 {
        let rest = tally.drop_first();
        assert(tally_letters(tally)[0] != tally_letters(tally)[i]);
        assert(tally_letters(rest) =~= tally_letters(tally).drop_first());
        lemma_tally_count_at(rest, i - 1);
    }
}

/// For a letter without an entry a tally gives zero.
proof fn lemma_tally_count_absent(tally: Seq<(char, usize)>, c: char)
    requires
        !tally_letters(tally).contains(c),
    ensures
        tally_count(tally, c) == 0,
    decreases tally.len(),
{
    if tally.len() > 0 {
        let rest = tally.drop_first();
        assert(tally_letters(tally)[0] == tally[0].0);
        assert forall|j: int| 0 <= j < rest.len() implies tally_letters(rest)[j] != c by {
            assert(tally_letters(tally)[j + 1] == tally_letters(rest)[j]);
        }
        lemma_tally_count_absent(rest, c);
    }
}

/// The presence count of a list with one more word.
proof fn lemma_presence_count_push(words: Seq<Seq<char>>, word: Seq<char>, c: char)
    ensures
        presence_count(words.push(word), c) == presence_count(words, c) + if word.contains(c) {
            1nat
        } else {
            0nat
        },
        presence_count(words, c) <= words.len(),
{
    let holds = |w: Seq<char>| w.contains(c);
    words.lemma_filter_push(word, holds);
    words.lemma_filter_len(holds);
}

/// A letter occurs in some word of a list exactly if it occurs in the words
/// written one after the other.
proof fn lemma_presence_count_zero(words: Seq<Seq<char>>, c: char)
    ensures
        (presence_count(words, c) == 0) == !words.flatten().contains(c),
    decreases words.len(),
{
    if words.len() == 0 {
        assert(words.filter(|w: Seq<char>| w.contains(c)) =~= Seq::empty());
    } else {
        let front = words.drop_last();
        let last = words.last();
        assert(words =~= front.push(last));
        lemma_presence_count_zero(front, c);
        lemma_presence_count_push(front, last, c);
        front.lemma_flatten_push(last);
        lemma_contains_concat(front.flatten(), last);
    }
}

/// What a tally holds for `c` while a pool is counted: the number of the
/// words counted so far that hold `c`, and one more if the part of the next
/// word that was read holds it.
spec fn counted(done: Seq<Seq<char>>, seen: Seq<char>, c: char) -> nat {
    presence_count(done, c) + if seen.contains(c) {
        1nat
    } else {
        0nat
    }
}

/// Whether every entry of `tally` holds the count that `counted` gives.
spec fn tally_agrees(tally: Seq<(char, usize)>, done: Seq<Seq<char>>, seen: Seq<char>) -> bool {
    forall|j: int| 0 <= j < tally.len() ==> (#[trigger] tally[j]).1 == counted(done, seen, tally[j].0)
}

/// The distinct letters of `word`, in the order of their first occurrence.
pub fn unique_letters(word: &str) -> (r: Vec<char>)
    ensures
        r@ == distinct(word@),
{
    let chars = chars_of(word);
    let mut r: Vec<char> = Vec::new();
    for k in 0..chars.len()
        invariant
            chars@ == word@,
            r@ == distinct(chars@.take(k as int)),
    {
        let c = chars[k];
        proof {
            let seen = chars@.take(k as int);
            assert(chars@.take(k + 1) =~= seen.push(c));
            lemma_distinct_push(seen, c);
            lemma_distinct_properties(seen);
        }
        if !has_char(&r, c) {
            r.push(c);
        }
    }
    assert(chars@.take(chars@.len() as int) =~= chars@);
    r
}

/// The place of the entry for `c` in `tally`, if there is one.
fn find_entry(tally: &Vec<(char, usize)>, c: char) -> (r: Option<usize>)
    ensures
        match r {
            Some(p) => p < tally@.len() && tally@[p as int].0 == c,
            None => !tally_letters(tally@).contains(c),
        },
{
    for p in 0..tally.len()
        invariant
            forall|j: int| 0 <= j < p ==> tally@[j].0 != c,
    {
        if tally[p].0 == c {
            return Some(p);
        }
    }
    None
}

/// For each letter that occurs in `words`, the number of words that hold it.
///
/// The letters come in the order of their first occurrence in the list. A word
/// counts once for a letter, however often it repeats the letter. The counts
/// come as a list of entries, one for each letter, because vstd gives no key
/// model to `char` and so says nothing of a hash map from letters to counts.
pub fn letter_presence_counts(words: &Vec<String>) -> (r: Vec<(char, usize)>)
    ensures
        tally_letters(r@) == distinct(spellings(words@).flatten()),
        forall|i: int|
            0 <= i < r@.len() ==> (#[trigger] r@[i]).1 == presence_count(
                spellings(words@),
                r@[i].0,
            ),
        forall|c: char| tally_count(r@, c) == presence_count(spellings(words@), c),
{
    let ghost all = spellings(words@);
    let mut tally: Vec<(char, usize)> = Vec::new();
    assert(all.take(0).flatten() =~= Seq::<char>::empty());
    assert(tally_letters(tally@) =~= distinct(all.take(0).flatten()));
    for i in 0..words.len()
        invariant
            all == spellings(words@),
            tally_letters(tally@) == distinct(all.take(i as int).flatten()),
            tally_agrees(tally@, all.take(i as int), Seq::empty()),
    {
        let chars = chars_of(words[i].as_str());
        let ghost done = all.take(i as int);
        let ghost flat = done.flatten();
        assert(chars@ == all[i as int]);
        assert(chars@.take(0) =~= Seq::<char>::empty());
        assert(flat + chars@.take(0) =~= flat);
        for k in 0..chars.len()
            invariant
                i < words@.len() <= usize::MAX,
                all == spellings(words@),
                done == all.take(i as int),
                flat == done.flatten(),
                chars@ == all[i as int],
                tally_letters(tally@) == distinct(flat + chars@.take(k as int)),
                tally_agrees(tally@, done, chars@.take(k as int)),
        {
            let c = chars[k];
            let ghost seen = chars@.take(k as int);
            let ghost old_tally = tally@;
            proof {
                assert(chars@.take(k + 1) =~= seen.push(c));
                assert(flat + seen.push(c) =~= (flat + seen).push(c));
                lemma_distinct_push(flat + seen, c);
                lemma_distinct_properties(flat + seen);
                lemma_contains_push(seen, c);
                lemma_contains_concat(flat, seen);
                lemma_presence_count_zero(done, c);
                lemma_presence_count_push(done, chars@, c);
            }
            if !occurs_before(&chars, k, c) {
                match find_entry(&tally, c) {
                    Some(p) => {
                        let n = tally[p].1;
                        assert(tally_letters(old_tally)[p as int] == c);
                        assert(n == counted(done, seen, c));
                        tally.set(p, (c, n + 1));
                        assert(tally_letters(tally@) =~= tally_letters(old_tally));
                        assert(tally_agrees(tally@, done, seen.push(c))) by {
                            assert forall|j: int| 0 <= j < tally@.len() && j != p implies tally@[j].0
                                != c by {
                                assert(tally_letters(old_tally)[j] != tally_letters(old_tally)[p as int]);
                            }
                        }
                    },
                    None => {
                        tally.push((c, 1));
                        assert(tally_letters(tally@) =~= tally_letters(old_tally).push(c));
                        assert(tally_agrees(tally@, done, seen.push(c))) by {
                            assert forall|j: int| 0 <= j < old_tally.len() implies old_tally[j].0
                                != c by {
                                assert(tally_letters(old_tally)[j] == old_tally[j].0);
                            }
                        }
                    },
                }
            } else {
                assert(tally_agrees(tally@, done, seen.push(c)));
            }
        }
        proof {
            assert(chars@.take(chars@.len() as int) =~= chars@);
            assert(all.take(i + 1) =~= done.push(chars@));
            done.lemma_flatten_push(chars@);
            assert(tally_agrees(tally@, all.take(i + 1), Seq::empty())) by {
                assert forall|j: int| 0 <= j < tally@.len() implies (#[trigger] tally@[j]).1
                    == counted(all.take(i + 1), Seq::empty(), tally@[j].0) by {
                    lemma_presence_count_push(done, chars@, tally@[j].0);
                }
            }
        }
    }
    proof {
        assert(all.take(words@.len() as int) =~= all);
        lemma_distinct_properties(all.flatten());
        assert forall|c: char| tally_count(tally@, c) == presence_count(all, c) by {
            if tally_letters(tally@).contains(c) {
                let j = choose|j: int|
                    0 <= j < tally_letters(tally@).len() && tally_letters(tally@)[j] == c;
                lemma_tally_count_at(tally@, j);
            } else {
                lemma_tally_count_absent(tally@, c);
                lemma_presence_count_zero(all, c);
            }
        }
    }
    tally
}

/// Whether `c` occurs among the first `k` characters of `chars`.
fn occurs_before(chars: &Vec<char>, k: usize, c: char) -> (b: bool)
    requires
        k <= chars@.len(),
    ensures
        b == chars@.take(k as int).contains(c),
{
    for j in 0..k
        invariant
            k <= chars@.len(),
            forall|m: int| 0 <= m < j ==> chars@[m] != c,
    {
        if chars[j] == c {
            assert(chars@.take(k as int)[j as int] == c);
            return true;
        }
    }
    false
}

/// The count that `tally` gives for `c`.
pub fn count_of(tally: &Vec<(char, usize)>, c: char) -> (n: usize)
    ensures
        n == tally_count(tally@, c),
{
    assert(tally@.skip(0) =~= tally@);
    for p in 0..tally.len()
        invariant
            tally_count(tally@, c) == tally_count(tally@.skip(p as int), c),
    {
        assert(tally@.skip(p as int).drop_first() =~= tally@.skip(p + 1));
        if tally[p].0 == c {
            return tally[p].1;
        }
    }
    0
}

/// The coverage of `word` under `tally`: the sum of the counts of its distinct
/// letters.
pub fn coverage(word: &str, tally: &Vec<(char, usize)>) -> (r: u128)
    ensures
        r == coverage_of(word@, tally@),
{
    let letters = unique_letters(word);
    let mut sum: u128 = 0;
    for k in 0..letters.len()
        invariant
            sum == total_count(letters@.take(k as int), tally@),
            sum <= k * usize::MAX,
    {
        assert(letters@.take(k + 1).drop_last() =~= letters@.take(k as int));
        let n = count_of(tally, letters[k]);
        assert(k * usize::MAX + usize::MAX <= usize::MAX * usize::MAX) by (nonlinear_arith)
            requires
                k < usize::MAX,
        ;
        assert(usize::MAX * usize::MAX <= u128::MAX) by (nonlinear_arith);
        assert((k + 1) * usize::MAX == k * usize::MAX + usize::MAX) by (nonlinear_arith);
        sum = sum + n as u128;
    }
    assert(letters@.take(letters@.len() as int) =~= letters@);
    sum
}

} // verus!
