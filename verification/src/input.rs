//! What a player types: commands, guesses and feedback, told apart and
//! checked before they reach the constraint model.

use crate::text::{chars_of, is_lower_letter};
use vstd::prelude::*;

verus! {

/// Whether `s` is a word of the game: exactly five letters `a` to `z`.
pub open spec fn is_word(s: Seq<char>) -> bool {
    s.len() == 5 && forall|i: int| 0 <= i < 5 ==> is_lower_letter(#[trigger] s[i])
}

/// Whether `mark` is one of the three feedback marks: `g` for green, `y` for
/// yellow, `x` for grey.
pub open spec fn is_mark(mark: char) -> bool {
    mark == 'g' || mark == 'y' || mark == 'x'
}

/// Whether `s` is the feedback for one guess: exactly five marks.
pub open spec fn is_feedback(s: Seq<char>) -> bool {
    s.len() == 5 && forall|i: int| 0 <= i < 5 ==> is_mark(#[trigger] s[i])
}

/// Whether `guess` is exactly five lower-case ASCII letters.
pub fn is_valid_guess(guess: &str) -> (b: bool)
    ensures
        b == is_word(guess@),
{
    let chars = chars_of(guess);
    if chars.len() != 5 {
        return false;
    }
    for i in 0..5usize
        invariant
            chars@ == guess@,
            chars@.len() == 5,
            forall|j: int| 0 <= j < i ==> is_lower_letter(#[trigger] guess@[j]),
    {
        let c = chars[i];
        if !('a' <= c && c <= 'z') {
            assert(!is_lower_letter(guess@[i as int]));
            return false;
        }
    }
    true
}

/// Whether `feedback` is exactly five of the marks `g`, `y` and `x`.
pub fn is_valid_feedback(feedback: &str) -> (b: bool)
    ensures
        b == is_feedback(feedback@),
{
    let chars = chars_of(feedback);
    if chars.len() != 5 {
        return false;
    }
    for i in 0..5usize
        invariant
            chars@ == feedback@,
            chars@.len() == 5,
            forall|j: int| 0 <= j < i ==> is_mark(#[trigger] feedback@[j]),
    {
        let c = chars[i];
        if !(c == 'g' || c == 'y' || c == 'x') {
            assert(!is_mark(feedback@[i as int]));
            return false;
        }
    }
    true
}

/// Whether `feedback` says that the guess is the word: it reads `ggggg`.
pub fn is_solved(feedback: &str) -> (b: bool)
    ensures
        b == (feedback@ == "ggggg"@),
{
    proof {
        reveal_strlit("ggggg");
    }
    let chars = chars_of(feedback);
    if chars.len() != 5 {
        return false;
    }
    for i in 0..5usize
        invariant
            chars@ == feedback@,
            chars@.len() == 5,
            "ggggg"@.len() == 5,
            forall|j: int| 0 <= j < 5 ==> "ggggg"@[j] == 'g',
            forall|j: int| 0 <= j < i ==> feedback@[j] == 'g',
    {
        if chars[i] != 'g' {
            return false;
        }
    }
    assert(feedback@ =~= "ggggg"@);
    true
}

/// What a line typed at the prompt asks for.
#[derive(Debug, Clone, Copy, PartialEq, Eq, Structural)]
pub enum Command {
    /// `q`: leave the game.
    Quit,
    /// `?`: show the help text.
    Help,
    /// `s`: show the constraints gathered so far.
    ShowConstraints,
    /// Anything else is meant as a guess.
    Guess,
}

/// The command that a line stands for.
pub open spec fn command_of(line: Seq<char>) -> Command {
    if line == seq!['q'] {
        Command::Quit
    } else if line == seq!['?'] {
        Command::Help
    } else if line == seq!['s'] {
        Command::ShowConstraints
    } else {
        Command::Guess
    }
}

/// Tells the one-letter commands `q`, `?` and `s` from a guess.
pub fn read_command(line: &str) -> (r: Command)
    ensures
        r == command_of(line@),
{
    let chars = chars_of(line);
    if chars.len() == 1 {
        let c = chars[0];
        assert(line@ =~= seq![c]);
        assert(seq!['q'][0] == 'q' && seq!['?'][0] == '?' && seq!['s'][0] == 's');
        if c == 'q' {
            return Command::Quit;
        } else if c == '?' {
            return Command::Help;
        } else if c == 's' {
            return Command::ShowConstraints;
        }
    } else {
        assert(seq!['q'].len() == 1 && seq!['?'].len() == 1 && seq!['s'].len() == 1);
    }
    Command::Guess
}

} // verus!
