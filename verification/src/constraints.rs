//! The constraint model: what the feedback received so far says about the
//! hidden word, and which words are still consistent with it.

use crate::letters::{in_order, LetterSet};
use crate::text::{ascii_upper, chars_of, has_char, text_of};
use vstd::prelude::*;
use vstd::string::StringExecFns;

verus! {

/// Whether a feedback mark says that the guessed letter belongs to the word:
/// `g` (right letter, right position) or `y` (right letter, wrong position).
pub open spec fn is_hit(mark: char) -> bool {
    mark == 'g' || mark == 'y'
}

/// The letters among the first `n` of `guess` whose feedback mark is one of
/// the `wanted` marks.
pub open spec fn letters_marked(
    guess: Seq<char>,
    feedback: Seq<char>,
    n: int,
    wanted: spec_fn(char) -> bool,
) -> Set<char> {
    Set::new(|c: char| exists|i: int| 0 <= i < n && #[trigger] guess[i] == c && wanted(feedback[i]))
}

/// The letters that `feedback` marks green or yellow among the first `n`
/// positions of `guess`.
pub open spec fn hit_letters(guess: Seq<char>, feedback: Seq<char>, n: int) -> Set<char> {
    letters_marked(guess, feedback, n, |mark: char| is_hit(mark))
}

/// The letters that `feedback` marks grey among the first `n` positions of
/// `guess`.
pub open spec fn grey_letters(guess: Seq<char>, feedback: Seq<char>, n: int) -> Set<char> {
    letters_marked(guess, feedback, n, |mark: char| mark == 'x')
}

/// What is known of the hidden word: the mathematical content of a
/// [`GameState`].
#[verifier::ext_equal]
pub struct Constraints {
    /// For each of the five positions, the letter known to stand there.
    pub greens: Seq<Option<char>>,
    /// For each of the five positions, the letters known not to stand there.
    pub not_at: Seq<Set<char>>,
    /// The letters known to occur somewhere in the word.
    pub required: Set<char>,
    /// The letters known not to occur in the word at all.
    pub excluded: Set<char>,
}

impl Constraints {
    /// The constraints at the start of a game: nothing is known.
    pub open spec fn empty() -> Constraints {
        Constraints {
            greens: Seq::new(5, |i: int| None),
            not_at: Seq::new(5, |i: int| Set::empty()),
            required: Set::empty(),
            excluded: Set::empty(),
        }
    }

    /// The invariant of the model: five positions, and no letter is both
    /// required and excluded.
    pub open spec fn well_formed(self) -> bool {
        &&& self.greens.len() == 5
        &&& self.not_at.len() == 5
        &&& self.required.disjoint(self.excluded)
    }

    /// The constraints after the feedback for one guess has been taken in.
    ///
    /// A green mark fixes the letter of its position; a yellow or grey mark
    /// bans the letter from its position. Every letter with a green or yellow
    /// mark becomes required and stops being excluded. A letter with a grey
    /// mark becomes excluded unless it is required once all green and yellow
    /// marks of this guess are counted: a guess that repeats a letter may get
    /// a grey mark for one occurrence of a letter that the word does hold.
    pub open spec fn learn(self, guess: Seq<char>, feedback: Seq<char>) -> Constraints {
        let hits = hit_letters(guess, feedback, 5);
        let required = self.required + hits;
        Constraints {
            greens: Seq::new(
                5,
                |i: int|
                    if feedback[i] == 'g' {
                        Some(guess[i])
                    } else {
                        self.greens[i]
                    },
            ),
            not_at: Seq::new(
                5,
                |i: int|
                    if feedback[i] == 'y' || feedback[i] == 'x' {
                        self.not_at[i].insert(guess[i])
                    } else {
                        self.not_at[i]
                    },
            ),
            required,
            excluded: (self.excluded - hits) + (grey_letters(guess, feedback, 5) - required),
        }
    }

    /// No green position of the first five holds another letter in `word`.
    pub open spec fn greens_hold(self, word: Seq<char>) -> bool {
        forall|i: int|
            0 <= i < 5 && i < word.len() && self.greens[i] is Some ==> self.greens[i] == Some(
                #[trigger] word[i],
            )
    }

    /// None of the first five letters of `word` stands at a position from
    /// which it is banned.
    pub open spec fn positions_hold(self, word: Seq<char>) -> bool {
        forall|i: int| 0 <= i < 5 && i < word.len() ==> !self.not_at[i].contains(#[trigger] word[i])
    }

    /// Every required letter occurs in `word`.
    pub open spec fn required_hold(self, word: Seq<char>) -> bool {
        forall|c: char| #[trigger] self.required.contains(c) ==> word.contains(c)
    }

    /// No excluded letter occurs in `word`.
    pub open spec fn excluded_hold(self, word: Seq<char>) -> bool {
        forall|i: int| 0 <= i < word.len() ==> !self.excluded.contains(#[trigger] word[i])
    }

    /// Whether `word` is consistent with everything known.
    pub open spec fn admits(self, word: Seq<char>) -> bool {
        &&& self.greens_hold(word)
        &&& self.positions_hold(word)
        &&& self.required_hold(word)
        &&& self.excluded_hold(word)
    }

    /// Whether the feedback contradicts nothing that is known: no green mark
    /// replaces a different green letter, and no excluded letter gets a green
    /// or yellow mark.
    pub open spec fn agrees_with(self, guess: Seq<char>, feedback: Seq<char>) -> bool {
        forall|i: int|
            0 <= i < 5 ==> {
                &&& (#[trigger] feedback[i] == 'g' && self.greens[i] is Some ==> self.greens[i]
                    == Some(guess[i]))
                &&& (is_hit(feedback[i]) ==> !self.excluded.contains(guess[i]))
            }
    }

    /// Whether `self` keeps every piece of knowledge that `other` holds.
    pub open spec fn at_least_as_strict_as(self, other: Constraints) -> bool {
        &&& forall|i: int|
            0 <= i < 5 && (#[trigger] other.greens[i]) is Some ==> self.greens[i]
                == other.greens[i]
        &&& forall|i: int| 0 <= i < 5 ==> (#[trigger] other.not_at[i]).subset_of(self.not_at[i])
        &&& other.required.subset_of(self.required)
        &&& other.excluded.subset_of(self.excluded)
    }

    /// The five green positions as text: the known letters in upper case, `_`
    /// where nothing is known.
    pub open spec fn green_text(self) -> Seq<char> {
        Seq::new(
            5,
            |i: int|
                match self.greens[i] {
                    Some(c) => ascii_upper(c),
                    None => '_',
                },
        )
    }

    /// The constraints as lines of text: the green positions always, the
    /// required and the excluded letters where there are any.
    pub open spec fn summary(self) -> Seq<char> {
        "  Green:    "@ + self.green_text() + "\n"@ + labelled_line(
            "  Required: "@,
            in_order(self.required),
        ) + labelled_line("  Excluded: "@, in_order(self.excluded))
    }
}

/// The line `label` + `letters`, or nothing where there are no letters.
pub open spec fn labelled_line(label: Seq<char>, letters: Seq<char>) -> Seq<char> {
    if letters.len() == 0 {
        Seq::empty()
    } else {
        label + letters + "\n"@
    }
}

/// Taking in feedback keeps the invariant: no letter is both required and
/// excluded afterwards.
pub proof fn lemma_learn_keeps_well_formed(
    before: Constraints,
    guess: Seq<char>,
    feedback: Seq<char>,
)
    requires
        before.well_formed(),
    ensures
        before.learn(guess, feedback).well_formed(),
{
}

/// Feedback that agrees with what is known only adds knowledge: every green
/// letter, banned position, required letter and excluded letter is kept.
pub proof fn lemma_learn_narrows(before: Constraints, guess: Seq<char>, feedback: Seq<char>)
    requires
        before.agrees_with(guess, feedback),
    ensures
        before.learn(guess, feedback).at_least_as_strict_as(before),
{
    let after = before.learn(guess, feedback);
    let hits = hit_letters(guess, feedback, 5);
    assert forall|c: char| before.excluded.contains(c) implies after.excluded.contains(c) by {
        if hits.contains(c) {
            let i = choose|i: int| 0 <= i < 5 && #[trigger] guess[i] == c && is_hit(feedback[i]);
            assert(is_hit(feedback[i]));
        }
    }
    assert forall|i: int| 0 <= i < 5 && (#[trigger] before.greens[i]) is Some implies after.greens[i]
        == before.greens[i] by {
        assert(feedback[i] == 'g' ==> before.greens[i] == Some(guess[i]));
    }
}

/// Feedback that contradicts what is known loses knowledge: a green letter is
/// replaced or an excluded letter is let in again. So the feedback that only
/// adds knowledge is exactly the feedback that agrees with what is known.
pub proof fn lemma_contradiction_loses_knowledge(
    before: Constraints,
    guess: Seq<char>,
    feedback: Seq<char>,
)
    requires
        !before.agrees_with(guess, feedback),
    ensures
        !before.learn(guess, feedback).at_least_as_strict_as(before),
{
    let after = before.learn(guess, feedback);
    let i = choose|i: int|
        0 <= i < 5 && !{
            &&& (#[trigger] feedback[i] == 'g' && before.greens[i] is Some ==> before.greens[i]
                == Some(guess[i]))
            &&& (is_hit(feedback[i]) ==> !before.excluded.contains(guess[i]))
        };
    if feedback[i] == 'g' && before.greens[i] is Some && before.greens[i] != Some(guess[i]) {
        assert(after.greens[i] == Some(guess[i]));
    } else {
        assert(0 <= i < 5 && guess[i] == guess[i] && is_hit(feedback[i]));
        assert(hit_letters(guess, feedback, 5).contains(guess[i]));
        assert(!after.excluded.contains(guess[i]));
    }
}

/// Constraints that keep all the knowledge of others admit no word that the
/// others reject.
pub proof fn lemma_stricter_admits_fewer(strict: Constraints, loose: Constraints, word: Seq<char>)
    requires
        strict.at_least_as_strict_as(loose),
        strict.admits(word),
    ensures
        loose.admits(word),
{
    assert forall|i: int|
        0 <= i < 5 && i < word.len() && loose.greens[i] is Some implies loose.greens[i] == Some(
        #[trigger] word[i],
    ) by {}
    assert forall|i: int| 0 <= i < 5 && i < word.len() implies !loose.not_at[i].contains(
        #[trigger] word[i],
    ) by {
        assert(loose.not_at[i].subset_of(strict.not_at[i]));
    }
}

/// Matching is monotonic: a word that is rejected before feedback is taken in
/// is still rejected after, whenever the feedback agrees with what was known.
pub proof fn lemma_update_never_readmits(
    before: Constraints,
    guess: Seq<char>,
    feedback: Seq<char>,
    word: Seq<char>,
)
    requires
        before.agrees_with(guess, feedback),
        !before.admits(word),
    ensures
        !before.learn(guess, feedback).admits(word),
{
    lemma_learn_narrows(before, guess, feedback);
    if before.learn(guess, feedback).admits(word) {
        lemma_stricter_admits_fewer(before.learn(guess, feedback), before, word);
    }
}

/// Taking in the same feedback twice teaches nothing new.
pub proof fn lemma_learn_is_idempotent(before: Constraints, guess: Seq<char>, feedback: Seq<char>)
    ensures
        before.learn(guess, feedback).learn(guess, feedback) == before.learn(guess, feedback),
{
    let once = before.learn(guess, feedback);
    let twice = once.learn(guess, feedback);
    assert(twice.greens =~= once.greens);
    assert(twice.not_at =~~= once.not_at);
    assert(twice.required =~= once.required);
    assert(twice.excluded =~= once.excluded);
}

/// The guard for repeated letters within one guess: where a letter has a green
/// or yellow mark at one position and a grey mark at another, it becomes
/// required, is banned from the grey position, and is not excluded from the
/// word, whatever was known before.
pub proof fn lemma_repeated_letter_is_not_excluded(
    before: Constraints,
    guess: Seq<char>,
    feedback: Seq<char>,
    hit: int,
    grey: int,
)
    requires
        0 <= hit < 5,
        0 <= grey < 5,
        is_hit(feedback[hit]),
        feedback[grey] == 'x',
        guess[hit] == guess[grey],
    ensures
        before.learn(guess, feedback).required.contains(guess[grey]),
        !before.learn(guess, feedback).excluded.contains(guess[grey]),
        before.learn(guess, feedback).not_at[grey].contains(guess[grey]),
{
    assert(0 <= hit < 5 && guess[hit] == guess[grey] && is_hit(feedback[hit]));
    assert(hit_letters(guess, feedback, 5).contains(guess[grey]));
}

/// The guard for repeated letters across guesses: a grey mark on a letter that
/// is required once the green and yellow marks of the same guess are counted,
/// be it by this guess or by an earlier one, bans the letter from the marked
/// position and does not exclude it from the word.
pub proof fn lemma_grey_mark_spares_required_letter(
    before: Constraints,
    guess: Seq<char>,
    feedback: Seq<char>,
    at: int,
)
    requires
        before.well_formed(),
        0 <= at < 5,
        feedback[at] == 'x',
        before.learn(guess, feedback).required.contains(guess[at]),
    ensures
        !before.learn(guess, feedback).excluded.contains(guess[at]),
        before.learn(guess, feedback).not_at[at].contains(guess[at]),
{
}

/// A grey mark on a letter that is not required, neither before nor by a
/// green or yellow mark of the same guess, excludes the letter from the word.
pub proof fn lemma_grey_mark_excludes_other_letter(
    before: Constraints,
    guess: Seq<char>,
    feedback: Seq<char>,
    at: int,
)
    requires
        0 <= at < 5,
        feedback[at] == 'x',
        !before.learn(guess, feedback).required.contains(guess[at]),
    ensures
        before.learn(guess, feedback).excluded.contains(guess[at]),
        before.learn(guess, feedback).not_at[at].contains(guess[at]),
{
    assert(0 <= at < 5 && guess[at] == guess[at] && feedback[at] == 'x');
    assert(grey_letters(guess, feedback, 5).contains(guess[at]));
}

/// The knowledge gathered in one game.
#[derive(Debug)]
pub struct GameState {
    /// The letter known to stand at each position, if any.
    pub greens: [Option<char>; 5],
    /// The letters known not to stand at each position.
    pub yellows_not_at: [LetterSet; 5],
    /// The letters known to occur in the word.
    pub required_letters: LetterSet,
    /// The letters known not to occur in the word.
    pub excluded_letters: LetterSet,
}

impl View for GameState {
    type V = Constraints;

    open spec fn view(&self) -> Constraints {
        Constraints {
            greens: self.greens@,
            not_at: Seq::new(5, |i: int| self.yellows_not_at@[i]@),
            required: self.required_letters@,
            excluded: self.excluded_letters@,
        }
    }
}

/// One more position adds its letter to the marked letters if its mark is
/// wanted, and nothing else.
proof fn lemma_letters_marked_step(
    guess: Seq<char>,
    feedback: Seq<char>,
    n: int,
    wanted: spec_fn(char) -> bool,
)
    requires
        0 <= n,
    ensures
        letters_marked(guess, feedback, n + 1, wanted) == if wanted(feedback[n]) {
            letters_marked(guess, feedback, n, wanted).insert(guess[n])
        } else {
            letters_marked(guess, feedback, n, wanted)
        },
        letters_marked(guess, feedback, 0, wanted) == Set::<char>::empty(),
{
    let next = letters_marked(guess, feedback, n + 1, wanted);
    let prev = letters_marked(guess, feedback, n, wanted);
    assert forall|c: char| next.contains(c) implies (prev.contains(c) || (wanted(feedback[n]) && c
        == guess[n])) by {
        let i = choose|i: int| 0 <= i < n + 1 && #[trigger] guess[i] == c && wanted(feedback[i]);
        if i < n {
            assert(0 <= i < n && guess[i] == c && wanted(feedback[i]));
        }
    }
    assert forall|c: char| prev.contains(c) implies next.contains(c) by {
        let i = choose|i: int| 0 <= i < n && #[trigger] guess[i] == c && wanted(feedback[i]);
        assert(0 <= i < n + 1 && guess[i] == c && wanted(feedback[i]));
    }
    if wanted(feedback[n]) {
        assert(0 <= n < n + 1 && guess[n] == guess[n] && wanted(feedback[n]));
        assert(next =~= prev.insert(guess[n]));
    } else {
        assert(next =~= prev);
    }
    assert(letters_marked(guess, feedback, 0, wanted) =~= Set::<char>::empty());
}

impl GameState {
    /// The state at the start of a game: nothing is known.
    pub fn new() -> (r: GameState)
        ensures
            r@ == Constraints::empty(),
            r@.well_formed(),
    {
        let r = GameState {
            greens: [None; 5],
            yellows_not_at: [
                LetterSet::new(),
                LetterSet::new(),
                LetterSet::new(),
                LetterSet::new(),
                LetterSet::new(),
            ],
            required_letters: LetterSet::new(),
            excluded_letters: LetterSet::new(),
        };
        assert(r@ =~~= Constraints::empty());
        r
    }

    /// Takes in the feedback for one guess.
    ///
    /// Only the first five characters of `guess` and of `feedback` are read.
    /// The marks are taken in two passes, green and yellow first and grey
    /// after, so that a grey mark on a letter that this guess has shown to be
    /// in the word bans the letter from its position only.
    pub fn update(&mut self, guess: &str, feedback: &str)
        requires
            guess@.len() >= 5,
            feedback@.len() >= 5,
        ensures
            final(self)@ == old(self)@.learn(guess@, feedback@),
            old(self)@.well_formed() ==> final(self)@.well_formed(),
    {
        let ghost start = self@;
        let guess_chars = chars_of(guess);
        let feedback_chars = chars_of(feedback);
        proof {
            lemma_letters_marked_step(guess@, feedback@, 0, |mark: char| is_hit(mark));
        }
        for i in 0..5usize
            invariant
                guess_chars@ == guess@,
                feedback_chars@ == feedback@,
                guess@.len() >= 5,
                feedback@.len() >= 5,
                start.greens.len() == 5,
                start.not_at.len() == 5,
                forall|j: int|
                    0 <= j < 5 ==> #[trigger] self.greens@[j] == if j < i && feedback@[j] == 'g' {
                        Some(guess@[j])
                    } else {
                        start.greens[j]
                    },
                forall|j: int|
                    0 <= j < 5 ==> (#[trigger] self.yellows_not_at@[j])@ == if j < i && feedback@[j]
                        == 'y' {
                        start.not_at[j].insert(guess@[j])
                    } else {
                        start.not_at[j]
                    },
                self.required_letters@ == start.required + hit_letters(guess@, feedback@, i as int),
                self.excluded_letters@ == start.excluded - hit_letters(guess@, feedback@, i as int),
        {
            let letter = guess_chars[i];
            let mark = feedback_chars[i];
            proof {
                lemma_letters_marked_step(guess@, feedback@, i as int, |mark: char| is_hit(mark));
            }
            if mark == 'g' {
                self.greens[i] = Some(letter);
                self.required_letters.insert(letter);
                self.excluded_letters.remove(letter);
            } else if mark == 'y' {
                self.yellows_not_at[i].insert(letter);
                self.required_letters.insert(letter);
                self.excluded_letters.remove(letter);
            }
            assert(self.required_letters@ =~= start.required + hit_letters(
                guess@,
                feedback@,
                i + 1,
            ));
            assert(self.excluded_letters@ =~= start.excluded - hit_letters(
                guess@,
                feedback@,
                i + 1,
            ));
        }
        let ghost hits = hit_letters(guess@, feedback@, 5);
        proof {
            lemma_letters_marked_step(guess@, feedback@, 0, |mark: char| mark == 'x');
        }
        for i in 0..5usize
            invariant
                guess_chars@ == guess@,
                feedback_chars@ == feedback@,
                guess@.len() >= 5,
                feedback@.len() >= 5,
                hits == hit_letters(guess@, feedback@, 5),
                start.greens.len() == 5,
                start.not_at.len() == 5,
                forall|j: int|
                    0 <= j < 5 ==> #[trigger] self.greens@[j] == if feedback@[j] == 'g' {
                        Some(guess@[j])
                    } else {
                        start.greens[j]
                    },
                forall|j: int|
                    0 <= j < 5 ==> (#[trigger] self.yellows_not_at@[j])@ == if feedback@[j] == 'y'
                        || (j < i && feedback@[j] == 'x') {
                        start.not_at[j].insert(guess@[j])
                    } else {
                        start.not_at[j]
                    },
                self.required_letters@ == start.required + hits,
                self.excluded_letters@ == (start.excluded - hits) + (grey_letters(
                    guess@,
                    feedback@,
                    i as int,
                ) - (start.required + hits)),
        {
            let letter = guess_chars[i];
            proof {
                lemma_letters_marked_step(guess@, feedback@, i as int, |mark: char| mark == 'x');
            }
            if feedback_chars[i] == 'x' {
                if !self.required_letters.contains(letter) {
                    self.excluded_letters.insert(letter);
                }
                self.yellows_not_at[i].insert(letter);
            }
            assert(self.excluded_letters@ =~= (start.excluded - hits) + (grey_letters(
                guess@,
                feedback@,
                i + 1,
            ) - (start.required + hits)));
        }
        assert(self@ =~~= start.learn(guess@, feedback@));
    }

    /// Whether `word` is consistent with everything known.
    ///
    /// Green and banned positions are checked on the first five letters of
    /// `word`, required and excluded letters on all of it.
    pub fn matches(&self, word: &str) -> (b: bool)
        ensures
            b == self@.admits(word@),
    {
        let chars = chars_of(word);
        let n: usize = if chars.len() < 5 {
            chars.len()
        } else {
            5
        };
        for i in 0..n
            invariant
                chars@ == word@,
                n <= 5,
                n <= chars@.len(),
                forall|j: int|
                    0 <= j < i && self.greens@[j] is Some ==> self.greens@[j] == Some(
                        #[trigger] word@[j],
                    ),
        {
            match self.greens[i] {
                Some(expected) => {
                    if chars[i] != expected {
                        assert(!self@.greens_hold(word@));
                        return false;
                    }
                },
                None => {},
            }
        }
        assert(self@.greens_hold(word@));
        for i in 0..n
            invariant
                chars@ == word@,
                n <= 5,
                n <= chars@.len(),
                forall|j: int| 0 <= j < i ==> !self@.not_at[j].contains(#[trigger] word@[j]),
        {
            if self.yellows_not_at[i].contains(chars[i]) {
                assert(self@.not_at[i as int].contains(word@[i as int]));
                assert(!self@.positions_hold(word@));
                return false;
            }
        }
        assert(self@.positions_hold(word@));
        let required = self.required_letters.letters();
        for k in 0..required.len()
            invariant
                chars@ == word@,
                required@.to_set() == self@.required,
                forall|j: int| 0 <= j < k ==> word@.contains(#[trigger] required@[j]),
        {
            if !has_char(&chars, required[k]) {
                assert(required@.to_set().contains(required@[k as int]));
                assert(!self@.required_hold(word@));
                return false;
            }
        }
        assert(self@.required_hold(word@)) by {
            assert forall|c: char| #[trigger] self@.required.contains(c) implies word@.contains(
                c,
            ) by {
                assert(required@.to_set().contains(c));
                let j = choose|j: int| 0 <= j < required@.len() && required@[j] == c;
                assert(word@.contains(required@[j]));
            }
        }
        for k in 0..chars.len()
            invariant
                chars@ == word@,
                forall|j: int| 0 <= j < k ==> !self@.excluded.contains(#[trigger] word@[j]),
        {
            if self.excluded_letters.contains(chars[k]) {
                assert(self@.excluded.contains(word@[k as int]));
                assert(!self@.excluded_hold(word@));
                return false;
            }
        }
        true
    }

    /// The green positions as a string of five characters: each known letter
    /// in upper case, `_` where nothing is known.
    pub fn green_display(&self) -> (r: String)
        ensures
            r@ == self@.green_text(),
    {
        let mut r = String::new();
        for i in 0..5usize
            invariant
                r@ == self@.green_text().take(i as int),
        {
            let shown = match self.greens[i] {
                Some(c) => c.to_ascii_uppercase(),
                None => '_',
            };
            r.push(shown);
            assert(r@ =~= self@.green_text().take(i + 1));
        }
        assert(r@ =~= self@.green_text());
        r
    }

    /// The required letters in ascending order, each once.
    pub fn required_display(&self) -> (r: String)
        ensures
            r@ == in_order(self@.required),
    {
        text_of(&self.required_letters.ordered())
    }

    /// The excluded letters in ascending order, each once.
    pub fn excluded_display(&self) -> (r: String)
        ensures
            r@ == in_order(self@.excluded),
    {
        text_of(&self.excluded_letters.ordered())
    }

    /// The constraints as lines of text, each ended by a line feed: the green
    /// positions always, then the required and the excluded letters where
    /// there are any.
    pub fn display(&self) -> (r: String)
        ensures
            r@ == self@.summary(),
    {
        let mut r = String::new();
        r.append("  Green:    ");
        r.append(self.green_display().as_str());
        r.append("\n");
        let required = self.required_display();
        if required.as_str().unicode_len() > 0 {
            r.append("  Required: ");
            r.append(required.as_str());
            r.append("\n");
        }
        assert(r@ =~= "  Green:    "@ + self@.green_text() + "\n"@ + labelled_line(
            "  Required: "@,
            in_order(self@.required),
        ));
        let excluded = self.excluded_display();
        if excluded.as_str().unicode_len() > 0 {
            r.append("  Excluded: ");
            r.append(excluded.as_str());
            r.append("\n");
        }
        assert(r@ =~= self@.summary());
        r
    }
}

impl Default for GameState {
    /// The state at the start of a game.
    fn default() -> (r: GameState)
        ensures
            r@ == Constraints::empty(),
    {
        GameState::new()
    }
}

} // verus!
