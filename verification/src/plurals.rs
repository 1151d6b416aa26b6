//! Regular plurals: words made from a shorter dictionary word by adding `s` or
//! `es`, or by turning a final `y` into `ies`.

use crate::text::{chars_of, string_of};
use crate::word_set::WordSet;
use vstd::prelude::*;

verus! {

/// Whether `word` is a regular plural with respect to `dictionary`.
///
/// Only a word of five characters that ends in a single `s` can be one. It is
/// one where the dictionary holds its first four letters (`spots`), or, if it
/// ends in `es`, its first three letters (`foxes`), or, if it ends in `ies`,
/// its first two letters followed by `y` (`flies`).
pub open spec fn regular_plural(word: Seq<char>, dictionary: Set<Seq<char>>) -> bool {
    &&& word.len() == 5
    &&& word[4] == 's'
    &&& word[3] != 's'
    &&& {
        ||| dictionary.contains(word.take(4))
        ||| word[3] == 'e' && dictionary.contains(word.take(3))
        ||| word[2] == 'i' && word[3] == 'e' && dictionary.contains(word.take(2).push('y'))
    }
}

/// A word that ends in a double `s` is never taken for a regular plural,
/// whatever the dictionary holds.
pub proof fn lemma_double_s_is_no_plural(word: Seq<char>, dictionary: Set<Seq<char>>)
    requires
        word.len() >= 2,
        word[word.len() - 1] == 's',
        word[word.len() - 2] == 's',
    ensures
        !regular_plural(word, dictionary),
{
}

/// With an empty dictionary no word is a regular plural.
pub proof fn lemma_empty_dictionary_flags_nothing(word: Seq<char>)
    ensures
        !regular_plural(word, Set::empty()),
{
}

/// Whether `word` is a regular plural of a word of `dictionary`.
pub fn is_regular_plural(word: &str, dictionary: &WordSet) -> (b: bool)
    ensures
        b == regular_plural(word@, dictionary@),
{
    let chars = chars_of(word);
    if chars.len() != 5 || chars[4] != 's' {
        return false;
    }
    if chars[3] == 's' {
        return false;
    }
    let without_s = string_of(&chars, 0, 4);
    assert(without_s@ == word@.take(4));
    if dictionary.contains(without_s.as_str()) {
        return true;
    }
    if chars[3] == 'e' {
        let without_es = string_of(&chars, 0, 3);
        assert(without_es@ == word@.take(3));
        if dictionary.contains(without_es.as_str()) {
            return true;
        }
    }
    if chars[2] == 'i' && chars[3] == 'e' {
        let mut root_y = string_of(&chars, 0, 2);
        root_y.push('y');
        assert(root_y@ == word@.take(2).push('y'));
        if dictionary.contains(root_y.as_str()) {
            return true;
        }
    }
    false
}

/// Removes the regular plurals from `words`, keeping the other words in their
/// order, and returns how many were removed.
pub fn filter_regular_plurals(words: &mut Vec<String>, dictionary: &WordSet) -> (removed: usize)
    ensures
        final(words)@ == old(words)@.filter(|w: String| !regular_plural(w@, dictionary@)),
        removed == old(words)@.len() - final(words)@.len(),
{
    let ghost keep = |w: String| !regular_plural(w@, dictionary@);
    let mut all: Vec<String> = Vec::new();
    core::mem::swap(words, &mut all);
    let ghost before = all@;
    let total = all.len();
    let mut removed: usize = 0;
    for w in it: all
        invariant
            it.seq() == before,
            before.len() == total,
            forall|s: String| #[trigger] keep(s) == !regular_plural(s@, dictionary@),
            words@ == before.take(it.index()).filter(keep),
            removed + words@.len() == it.index(),
    {
        proof {
            let seen = before.take(it.index());
            assert(0 <= it.index() < before.len());
            assert(before[it.index()] == w);
            assert(before.take(it.index() + 1) =~= seen.push(w));
            seen.lemma_filter_push(w, keep);
        }
        if is_regular_plural(w.as_str(), dictionary) {
            removed += 1;
        } else {
            words.push(w);
        }
    }
    assert(before.take(before.len() as int) =~= before);
    assert(keep =~= (|w: String| !regular_plural(w@, dictionary@)));
    removed
}

} // verus!
