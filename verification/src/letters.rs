//! Sets of letters.

use itertools::Itertools;
use vstd::prelude::*;

verus! {

/// Whether the characters of `s` stand in ascending order of their code
/// points, equal neighbours allowed.
pub open spec fn ascending(s: Seq<char>) -> bool {
    forall|i: int, j: int| 0 <= i <= j < s.len() ==> s[i] <= s[j]
}

/// Whether the characters of `s` stand in ascending order of their code
/// points and none occurs twice.
pub open spec fn strictly_ascending(s: Seq<char>) -> bool {
    forall|i: int, j: int| 0 <= i < j < s.len() ==> s[i] < s[j]
}

/// The letters of a finite set in ascending order, each once.
pub open spec fn in_order(letters: Set<char>) -> Seq<char> {
    choose|s: Seq<char>| strictly_ascending(s) && s.to_set() == letters
}

/// Two strictly ascending sequences that hold the same letters are the same
/// sequence.
pub proof fn lemma_strictly_ascending_unique(a: Seq<char>, b: Seq<char>)
    requires
        strictly_ascending(a),
        strictly_ascending(b),
        a.to_set() == b.to_set(),
    ensures
        a == b,
    decreases a.len(),
{
    if a.len() == 0 {
        if b.len() > 0 {
            assert(b.to_set().contains(b[0]));
            assert(a.contains(b[0]));
        }
        assert(a =~= b);
    } else {
        let top = a.last();
        assert(a.to_set().contains(top));
        assert(b.contains(top));
        assert(b.to_set().contains(b.last()));
        assert(a.contains(b.last()));
        let i = choose|i: int| 0 <= i < b.len() && b[i] == top;
        let j = choose|j: int| 0 <= j < a.len() && a[j] == b.last();
        assert(top == b.last()) by {
            if i < b.len() - 1 {
                assert(b[i] < b[b.len() - 1]);
            }
            if j < a.len() - 1 {
                assert(a[j] < a[a.len() - 1]);
            }
        }
        let a0 = a.drop_last();
        let b0 = b.drop_last();
        assert(a0.to_set() =~= b0.to_set()) by {
            assert forall|x: char| a0.contains(x) implies b0.contains(x) by {
                let k = choose|k: int| 0 <= k < a0.len() && a0[k] == x;
                assert(a[k] == x);
                assert(a[k] < a[a.len() - 1]);
                assert(a.to_set().contains(x));
                assert(b.contains(x));
                let m = choose|m: int| 0 <= m < b.len() && b[m] == x;
                assert(b0[m] == x);
            }
            assert forall|x: char| b0.contains(x) implies a0.contains(x) by {
                let k = choose|k: int| 0 <= k < b0.len() && b0[k] == x;
                assert(b[k] == x);
                assert(b[k] < b[b.len() - 1]);
                assert(b.to_set().contains(x));
                assert(a.contains(x));
                let m = choose|m: int| 0 <= m < a.len() && a[m] == x;
                assert(a0[m] == x);
            }
        }
        assert(strictly_ascending(a0)) by {
            assert forall|i: int, j: int| 0 <= i < j < a0.len() implies a0[i] < a0[j] by {
                assert(a[i] < a[j]);
            }
        }
        assert(strictly_ascending(b0)) by {
            assert forall|i: int, j: int| 0 <= i < j < b0.len() implies b0[i] < b0[j] by {
                assert(b[i] < b[j]);
            }
        }
        lemma_strictly_ascending_unique(a0, b0);
        assert(a =~= a0.push(top));
        assert(b =~= b0.push(top));
    }
}

/// `Itertools::sorted` on the characters of `letters`: the result holds the
/// same characters, each as often as `letters` does, in ascending order of
/// their code points.
#[verifier::external_body]
fn sorted_chars(letters: &Vec<char>) -> (r: Vec<char>)
    ensures
        r@.to_multiset() == letters@.to_multiset(),
        ascending(r@),
{
    letters.iter().copied().sorted().collect()
}

/// A finite set of characters.
///
/// The letters are held in a vector, each once, in the order in which they
/// were inserted. The view is the set of the letters held.
///
/// A hash set would not do here: vstd specifies the hash sets of the standard
/// library for keys that obey its key model only, and it grants that model to
/// the integer types and `bool`, not to `char`.
#[derive(Debug)]
pub struct LetterSet {
    items: Vec<char>,
}

impl View for LetterSet {
    type V = Set<char>;

    closed spec fn view(&self) -> Set<char> {
        self.items@.to_set()
    }
}

impl LetterSet {
    /// The invariant of the type: no letter is held twice.
    #[verifier::type_invariant]
    spec fn each_once(&self) -> bool {
        self.items@.no_duplicates()
    }

    /// The empty set.
    pub fn new() -> (r: LetterSet)
        ensures
            r@ == Set::<char>::empty(),
    {
        let r = LetterSet { items: Vec::new() };
        assert(r.items@.to_set() =~= Set::<char>::empty());
        r
    }

    /// The place of `c` among the letters held, if it is held.
    fn position(&self, c: char) -> (r: Option<usize>)
        ensures
            match r {
                Some(i) => i < self.items@.len() && self.items@[i as int] == c,
                None => !self.items@.contains(c),
            },
    {
        for i in 0..self.items.len()
            invariant
                forall|j: int| 0 <= j < i ==> self.items@[j] != c,
        {
            if self.items[i] == c {
                return Some(i);
            }
        }
        None
    }

    /// Whether `c` belongs to the set.
    pub fn contains(&self, c: char) -> (b: bool)
        ensures
            b == self@.contains(c),
    {
        self.position(c).is_some()
    }

    /// Adds `c` to the set and says whether it was new.
    pub fn insert(&mut self, c: char) -> (added: bool)
        ensures
            final(self)@ == old(self)@.insert(c),
            added == !old(self)@.contains(c),
    {
        proof {
            use_type_invariant(&*self);
        }
        if self.contains(c) {
            assert(self@.insert(c) =~= self@);
            false
        } else {
            proof {
                self.items@.lemma_push_to_set_commute(c);
            }
            let mut items: Vec<char> = Vec::new();
            core::mem::swap(&mut self.items, &mut items);
            items.push(c);
            core::mem::swap(&mut self.items, &mut items);
            true
        }
    }

    /// Takes `c` out of the set and says whether it was there.
    pub fn remove(&mut self, c: char) -> (removed: bool)
        ensures
            final(self)@ == old(self)@.remove(c),
            removed == old(self)@.contains(c),
    {
        proof {
            use_type_invariant(&*self);
        }
        match self.position(c) {
            Some(i) => {
                let ghost before = self.items@;
                let mut items: Vec<char> = Vec::new();
                core::mem::swap(&mut self.items, &mut items);
                items.remove(i);
                assert(items@.to_set() =~= before.to_set().remove(c)) by {
                    assert forall|x: char| items@.contains(x) implies x != c && before.contains(
                        x,
                    ) by {
                        let k = choose|k: int| 0 <= k < items@.len() && items@[k] == x;
                        if k < i {
                            assert(before[k] == x);
                        } else {
                            assert(before[k + 1] == x);
                        }
                    }
                    assert forall|x: char| x != c && before.contains(x) implies items@.contains(
                        x,
                    ) by {
                        let k = choose|k: int| 0 <= k < before.len() && before[k] == x;
                        if k < i {
                            assert(items@[k] == x);
                        } else {
                            assert(items@[k - 1] == x);
                        }
                    }
                }
                core::mem::swap(&mut self.items, &mut items);
                true
            },
            None => {
                assert(self@.remove(c) =~= self@);
                false
            },
        }
    }

    /// The number of letters in the set.
    pub fn len(&self) -> (n: usize)
        ensures
            n == self@.len(),
    {
        proof {
            use_type_invariant(self);
            self.items@.unique_seq_to_set();
        }
        self.items.len()
    }

    /// Whether the set holds no letter.
    pub fn is_empty(&self) -> (b: bool)
        ensures
            b == (self@ == Set::<char>::empty()),
    {
        proof {
            if self.items@.len() > 0 {
                assert(self.items@.to_set().contains(self.items@[0]));
            } else {
                assert(self.items@.to_set() =~= Set::<char>::empty());
            }
        }
        self.items.len() == 0
    }

    /// The letters of the set in ascending order, each once.
    pub fn ordered(&self) -> (r: Vec<char>)
        ensures
            strictly_ascending(r@),
            r@.to_set() == self@,
            r@ == in_order(self@),
    {
        broadcast use vstd::seq_lib::to_multiset_contains;

        let r = sorted_chars(&self.items);
        proof {
            use_type_invariant(self);
            self.items@.lemma_multiset_has_no_duplicates();
            r@.lemma_multiset_has_no_duplicates_conv();
            assert(r@.to_set() =~= self.items@.to_set()) by {
                assert forall|x: char| r@.contains(x) == self.items@.contains(x) by {
                    assert(r@.to_multiset().count(x) == self.items@.to_multiset().count(x));
                }
            }
            lemma_strictly_ascending_unique(r@, in_order(self@));
        }
        r
    }

    /// The letters of the set, each once, in the order of their insertion.
    pub fn letters(&self) -> (r: &Vec<char>)
        ensures
            r@.no_duplicates(),
            r@.to_set() == self@,
    {
        proof {
            use_type_invariant(self);
        }
        &self.items
    }
}

} // verus!
