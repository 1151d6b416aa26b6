//! One game: the constraints gathered so far, together with the pool of words
//! that are still possible.

use crate::constraints::{lemma_stricter_admits_fewer, Constraints, GameState};
use crate::input::is_solved;
use vstd::prelude::*;

verus! {

/// The words of `pool` that `known` admits, in their order.
pub open spec fn consistent_words(pool: Seq<String>, known: Constraints) -> Seq<String> {
    pool.filter(|w: String| known.admits(w@))
}

/// A pool that was trimmed turn by turn is the pool that is trimmed once, by
/// the latest constraints, as long as each turn only added knowledge: the
/// candidates are then exactly the words of the corpus that are consistent
/// with all that is known.
pub proof fn lemma_pool_stays_consistent(pool: Seq<String>, before: Constraints, after: Constraints)
    requires
        after.at_least_as_strict_as(before),
    ensures
        consistent_words(consistent_words(pool, before), after) == consistent_words(pool, after),
    decreases pool.len(),
{
    let first = |w: String| before.admits(w@);
    let second = |w: String| after.admits(w@);
    if pool.len() == 0 {
        assert(pool.filter(first) =~= pool);
    } else {
        let front = pool.drop_last();
        let last = pool.last();
        assert(pool =~= front.push(last));
        lemma_pool_stays_consistent(front, before, after);
        front.lemma_filter_push(last, first);
        front.lemma_filter_push(last, second);
        if after.admits(last@) {
            lemma_stricter_admits_fewer(after, before, last@);
        }
        if before.admits(last@) {
            front.filter(first).lemma_filter_push(last, second);
        }
    }
}

/// Keeps the words of `candidates` that `state` admits, in their order, and
/// drops the others.
pub fn retain_matching(candidates: &mut Vec<String>, state: &GameState)
    ensures
        final(candidates)@ == consistent_words(old(candidates)@, state@),
        final(candidates)@.len() <= old(candidates)@.len(),
{
    let ghost keep = |w: String| state@.admits(w@);
    let mut all: Vec<String> = Vec::new();
    core::mem::swap(candidates, &mut all);
    let ghost before = all@;
    for w in it: all
        invariant
            it.seq() == before,
            forall|s: String| #[trigger] keep(s) == state@.admits(s@),
            candidates@ == before.take(it.index()).filter(keep),
    {
        proof {
            let seen = before.take(it.index());
            assert(before[it.index()] == w);
            assert(before.take(it.index() + 1) =~= seen.push(w));
            seen.lemma_filter_push(w, keep);
        }
        if state.matches(w.as_str()) {
            candidates.push(w);
        }
    }
    proof {
        assert(before.take(before.len() as int) =~= before);
        assert(keep =~= (|w: String| state@.admits(w@)));
        before.lemma_filter_len(keep);
    }
}

/// How the pool of candidates stands.
#[derive(Debug, Clone, Copy, PartialEq, Eq, Structural)]
pub enum PoolStatus {
    /// No word is left: the feedback given so far contradicts the corpus.
    Empty,
    /// One word is left: it is the answer.
    Single,
    /// Several words are left.
    Open,
}

/// What one guess led to.
#[derive(Debug, Clone, Copy, PartialEq, Eq, Structural)]
pub struct Outcome {
    /// The feedback was all green.
    pub solved: bool,
    /// No candidate is left although the feedback was not all green.
    pub no_matches: bool,
}

/// The state of one game.
#[derive(Debug)]
pub struct Session {
    /// What the feedback so far says about the word.
    pub state: GameState,
    /// The words that are still possible.
    pub candidates: Vec<String>,
    /// The guesses made, each with its feedback, oldest first.
    pub guesses: Vec<(String, String)>,
}

impl Session {
    /// A new game over the words of `available_words`: nothing is known, every
    /// word is a candidate, no guess was made.
    pub fn new(available_words: &Vec<String>) -> (r: Session)
        ensures
            r.state@ == Constraints::empty(),
            r.candidates@ == available_words@,
            r.guesses@.len() == 0,
    {
        let mut candidates: Vec<String> = Vec::new();
        for i in 0..available_words.len()
            invariant
                candidates@ == available_words@.take(i as int),
        {
            candidates.push(available_words[i].clone());
            assert(candidates@ =~= available_words@.take(i + 1));
        }
        assert(available_words@.take(available_words@.len() as int) =~= available_words@);
        Session { state: GameState::new(), candidates, guesses: Vec::new() }
    }

    /// Plays one turn: takes the feedback into the constraints, drops the
    /// candidates that no longer match, and records the guess.
    ///
    /// Only the first five characters of `guess` and of `feedback` reach the
    /// constraints.
    pub fn submit_guess(&mut self, guess: &str, feedback: &str) -> (r: Outcome)
        requires
            guess@.len() >= 5,
            feedback@.len() >= 5,
        ensures
            final(self).state@ == old(self).state@.learn(guess@, feedback@),
            final(self).candidates@ == consistent_words(
                old(self).candidates@,
                old(self).state@.learn(guess@, feedback@),
            ),
            final(self).candidates@.len() <= old(self).candidates@.len(),
            final(self).guesses@.len() == old(self).guesses@.len() + 1,
            final(self).guesses@.drop_last() == old(self).guesses@,
            final(self).guesses@.last().0@ == guess@,
            final(self).guesses@.last().1@ == feedback@,
            r.solved == (feedback@ == "ggggg"@),
            r.no_matches == (final(self).candidates@.len() == 0 && !r.solved),
    {
        self.state.update(guess, feedback);
        retain_matching(&mut self.candidates, &self.state);
        self.guesses.push((guess.to_owned(), feedback.to_owned()));
        assert(self.guesses@.drop_last() =~= old(self).guesses@);
        let solved = is_solved(feedback);
        Outcome { solved, no_matches: self.candidates.len() == 0 && !solved }
    }

    /// The number of candidates left.
    pub fn candidate_count(&self) -> (n: usize)
        ensures
            n == self.candidates@.len(),
    {
        self.candidates.len()
    }

    /// Whether no word, one word or several words are left.
    pub fn pool_status(&self) -> (r: PoolStatus)
        ensures
            r == if self.candidates@.len() == 0 {
                PoolStatus::Empty
            } else if self.candidates@.len() == 1 {
                PoolStatus::Single
            } else {
                PoolStatus::Open
            },
    {
        if self.candidates.len() == 0 {
            PoolStatus::Empty
        } else if self.candidates.len() == 1 {
            PoolStatus::Single
        } else {
            PoolStatus::Open
        }
    }
}

} // verus!
