//! A set of words with fast membership tests.

use crate::text::{chars_of, spellings};
use std::collections::HashMap;
use vstd::prelude::*;

verus! {

/// The number of buckets that words are spread over.
const BUCKETS: u64 = 4_294_967_291;

/// The bucket that a word belongs to: its characters read as the digits of a
/// number in base 31, modulo the number of buckets.
spec fn bucket_of(word: Seq<char>) -> u64
    decreases word.len(),
{
    if word.len() == 0 {
        0
    } else {
        ((bucket_of(word.drop_last()) * 31 + word.last() as u32) % BUCKETS as int) as u64
    }
}

/// Whether one of the strings of `bucket` spells `word`.
spec fn bucket_holds(bucket: Seq<String>, word: Seq<char>) -> bool {
    exists|i: int| 0 <= i < bucket.len() && (#[trigger] bucket[i])@ == word
}

/// A set of words.
///
/// The words are spread over buckets, so that a membership test reads one
/// bucket only. The view is the set of the words held, each as the sequence
/// of its characters.
///
/// The buckets are kept in a hash map with integer keys, for which vstd
/// specifies the maps of the standard library. It does not do so for a hash
/// set of `String`s: strings have no key model in vstd.
#[derive(Debug)]
pub struct WordSet {
    buckets: HashMap<u64, Vec<String>>,
}

impl View for WordSet {
    type V = Set<Seq<char>>;

    closed spec fn view(&self) -> Set<Seq<char>> {
        Set::new(
            |w: Seq<char>|
                self.buckets@.contains_key(bucket_of(w)) && bucket_holds(
                    self.buckets@[bucket_of(w)]@,
                    w,
                ),
        )
    }
}

/// The bucket of the word spelled by `chars`.
fn bucket_number(chars: &Vec<char>) -> (k: u64)
    ensures
        k == bucket_of(chars@),
{
    let mut k: u64 = 0;
    for i in 0..chars.len()
        invariant
            k == bucket_of(chars@.take(i as int)),
            k < BUCKETS,
    {
        assert(chars@.take(i + 1).drop_last() =~= chars@.take(i as int));
        k = (k * 31 + chars[i] as u32 as u64) % BUCKETS;
    }
    assert(chars@.take(chars@.len() as int) =~= chars@);
    k
}

/// Whether one of the strings of `bucket` equals `word`.
fn bucket_has(bucket: &Vec<String>, word: &String) -> (b: bool)
    ensures
        b == bucket_holds(bucket@, word@),
{
    for i in 0..bucket.len()
        invariant
            forall|j: int| 0 <= j < i ==> (#[trigger] bucket@[j])@ != word@,
    {
        if bucket[i] == *word {
            return true;
        }
    }
    false
}

impl WordSet {
    /// The empty set.
    pub fn new() -> (r: WordSet)
        ensures
            r@ == Set::<Seq<char>>::empty(),
    {
        let r = WordSet { buckets: HashMap::new() };
        assert(r@ =~= Set::<Seq<char>>::empty());
        r
    }

    /// Whether `word` is in the set.
    pub fn contains(&self, word: &str) -> (b: bool)
        ensures
            b == self@.contains(word@),
    {
        let k = bucket_number(&chars_of(word));
        match self.buckets.get(&k) {
            Some(bucket) => bucket_has(bucket, &word.to_owned()),
            None => false,
        }
    }

    /// Adds `word` to the set and says whether it was new.
    pub fn insert(&mut self, word: &str) -> (added: bool)
        ensures
            final(self)@ == old(self)@.insert(word@),
            added == !old(self)@.contains(word@),
    {
        let ghost before = self.buckets@;
        let k = bucket_number(&chars_of(word));
        let owned = word.to_owned();
        let mut bucket = match self.buckets.remove(&k) {
            Some(bucket) => bucket,
            None => Vec::new(),
        };
        let ghost old_bucket = bucket@;
        let added = !bucket_has(&bucket, &owned);
        if added {
            bucket.push(owned);
        }
        self.buckets.insert(k, bucket);
        proof {
            let after = self.buckets@;
            assert(before.contains_key(k) ==> before[k]@ == old_bucket);
            assert(!before.contains_key(k) ==> old_bucket.len() == 0);
            assert forall|w: Seq<char>| self@.contains(w) == old(self)@.insert(word@).contains(
                w,
            ) by {
                let kw = bucket_of(w);
                if kw == k {
                    if bucket_holds(after[k]@, w) {
                        let i = choose|i: int|
                            0 <= i < after[k]@.len() && (#[trigger] after[k]@[i])@ == w;
                        if i < old_bucket.len() {
                            assert(old_bucket[i]@ == w);
                            assert(bucket_holds(old_bucket, w));
                        }
                    }
                    if w == word@ {
                        if added {
                            assert(after[k]@[old_bucket.len() as int]@ == w);
                        }
                        assert(bucket_holds(after[k]@, w));
                    } else if before.contains_key(k) && bucket_holds(before[k]@, w) {
                        let i = choose|i: int|
                            0 <= i < old_bucket.len() && (#[trigger] old_bucket[i])@ == w;
                        assert(after[k]@[i]@ == w);
                    }
                } else {
                    assert(after.contains_key(kw) == before.contains_key(kw));
                    if before.contains_key(kw) {
                        assert(after[kw] == before[kw]);
                    }
                }
            }
            assert(self@ =~= old(self)@.insert(word@));
        }
        added
    }

    /// The set of the given words.
    pub fn from_words(words: &Vec<String>) -> (r: WordSet)
        ensures
            r@ == spellings(words@).to_set(),
    {
        let mut r = WordSet::new();
        for i in 0..words.len()
            invariant
                r@ == spellings(words@.take(i as int)).to_set(),
        {
            let ghost seen = spellings(words@.take(i as int));
            r.insert(words[i].as_str());
            proof {
                assert(spellings(words@.take(i + 1)) =~= seen.push(words@[i as int]@));
                seen.lemma_push_to_set_commute(words@[i as int]@);
            }
        }
        assert(words@.take(words@.len() as int) =~= words@);
        r
    }
}

} // verus!
