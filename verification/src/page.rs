//! What a page of the game shows and what a request carries: the grid of
//! guesses, the overview of the constraints, the session cookie.

use crate::constraints::{Constraints, GameState};
use crate::letters::in_order;
use crate::text::{
    chars_of, pieces, rows, split, strip_prefix, text_of, trim, trimmed, without_prefix,
};
use vstd::prelude::*;
use vstd::string::StringExecFns;

verus! {

/// How many suggestions a page lists at most.
pub const SUGGESTION_LIMIT: usize = 15;

/// The age in seconds past which the word data counts as stale: twelve hours.
pub const STALE_AFTER_SECONDS: u64 = 43_200;

/// Whether word data that was loaded `age_seconds` ago is stale.
pub fn is_stale(age_seconds: u64) -> (b: bool)
    ensures
        b == (age_seconds > STALE_AFTER_SECONDS),
{
    age_seconds > STALE_AFTER_SECONDS
}

/// One tile of the grid: a guessed letter with the name of its colour.
#[derive(Debug)]
pub struct TileData {
    /// The letter that was guessed.
    pub letter: char,
    /// `green`, `yellow` or `grey`.
    pub class: String,
}

/// The name of the colour that a feedback mark stands for: `green` for `g`,
/// `yellow` for `y`, `grey` for every other mark.
pub open spec fn tile_class(mark: char) -> Seq<char> {
    if mark == 'g' {
        "green"@
    } else if mark == 'y' {
        "yellow"@
    } else {
        "grey"@
    }
}

impl TileData {
    /// The tile that shows `letter` in the colour of `mark`.
    pub fn new(letter: char, mark: char) -> (r: TileData)
        ensures
            r.letter == letter,
            r.class@ == tile_class(mark),
    {
        let class = if mark == 'g' {
            "green".to_owned()
        } else if mark == 'y' {
            "yellow".to_owned()
        } else {
            "grey".to_owned()
        };
        TileData { letter, class }
    }
}

/// Whether `row` shows `guess` with `feedback`: one tile for each position
/// that both have, with the letter of the guess and the colour of the mark.
pub open spec fn is_grid_row(row: Seq<TileData>, guess: Seq<char>, feedback: Seq<char>) -> bool {
    &&& row.len() == if guess.len() <= feedback.len() {
        guess.len()
    } else {
        feedback.len()
    }
    &&& forall|k: int|
        0 <= k < row.len() ==> (#[trigger] row[k]).letter == guess[k] && row[k].class@
            == tile_class(feedback[k])
}

/// The tiles of one guess.
pub fn build_grid_row(guess: &str, feedback: &str) -> (r: Vec<TileData>)
    ensures
        is_grid_row(r@, guess@, feedback@),
{
    let letters = chars_of(guess);
    let marks = chars_of(feedback);
    let n = if letters.len() <= marks.len() {
        letters.len()
    } else {
        marks.len()
    };
    let mut row: Vec<TileData> = Vec::new();
    for k in 0..n
        invariant
            letters@ == guess@,
            marks@ == feedback@,
            n <= letters@.len(),
            n <= marks@.len(),
            row@.len() == k,
            forall|j: int|
                0 <= j < k ==> (#[trigger] row@[j]).letter == guess@[j] && row@[j].class@
                    == tile_class(feedback@[j]),
    {
        row.push(TileData::new(letters[k], marks[k]));
    }
    row
}

/// The grid of a game: one row of tiles for each guess, oldest first.
pub fn build_grid_rows(guesses: &Vec<(String, String)>) -> (r: Vec<Vec<TileData>>)
    ensures
        r@.len() == guesses@.len(),
        forall|i: int|
            0 <= i < r@.len() ==> is_grid_row((#[trigger] r@[i])@, guesses@[i].0@, guesses@[i].1@),
{
    let mut grid: Vec<Vec<TileData>> = Vec::new();
    for i in 0..guesses.len()
        invariant
            grid@.len() == i,
            forall|j: int|
                0 <= j < i ==> is_grid_row(
                    (#[trigger] grid@[j])@,
                    guesses@[j].0@,
                    guesses@[j].1@,
                ),
    {
        let row = build_grid_row(guesses[i].0.as_str(), guesses[i].1.as_str());
        grid.push(row);
    }
    grid
}

/// What a page says of the constraints.
#[derive(Debug)]
pub struct Overview {
    /// Whether anything is known at all.
    pub has_constraints: bool,
    /// Whether the green positions read otherwise than `_____`.
    pub has_green: bool,
    /// The green positions.
    pub green_display: String,
    /// The required letters.
    pub required_display: String,
    /// The excluded letters.
    pub excluded_display: String,
}

/// Whether the green positions of `c` read otherwise than `_____`.
pub open spec fn shows_green(c: Constraints) -> bool {
    c.green_text() != "_____"@
}

/// Whether `c` gives a page anything to show: a green position, a required
/// letter or an excluded letter.
pub open spec fn shows_constraints(c: Constraints) -> bool {
    shows_green(c) || in_order(c.required).len() > 0 || in_order(c.excluded).len() > 0
}

/// What a page says of the constraints of `state`.
pub fn overview(state: &GameState) -> (r: Overview)
    ensures
        r.green_display@ == state@.green_text(),
        r.required_display@ == in_order(state@.required),
        r.excluded_display@ == in_order(state@.excluded),
        r.has_green == shows_green(state@),
        r.has_constraints == shows_constraints(state@),
{
    let green_display = state.green_display();
    let required_display = state.required_display();
    let excluded_display = state.excluded_display();
    let shown = chars_of(green_display.as_str());
    proof {
        reveal_strlit("_____");
    }
    let mut has_green = false;
    for i in 0..5usize
        invariant
            shown@ == state@.green_text(),
            shown@.len() == 5,
            "_____"@.len() == 5,
            forall|j: int| 0 <= j < 5 ==> "_____"@[j] == '_',
            has_green == exists|j: int| 0 <= j < i && shown@[j] != '_',
    {
        if shown[i] != '_' {
            has_green = true;
        }
    }
    assert(has_green == (shown@ != "_____"@)) by {
        if !has_green {
            assert(shown@ =~= "_____"@);
        }
    }
    let has_constraints = has_green || required_display.as_str().unicode_len() > 0
        || excluded_display.as_str().unicode_len() > 0;
    Overview { has_constraints, has_green, green_display, required_display, excluded_display }
}

/// The first value that a list of optional values holds.
pub open spec fn first_some<A>(s: Seq<Option<A>>) -> Option<A>
    decreases s.len(),
{
    if s.len() == 0 {
        None
    } else if s[0] is Some {
        s[0]
    } else {
        first_some(s.drop_first())
    }
}

/// The session that one cookie names: what follows `session=` in the cookie
/// without the white space around it.
pub open spec fn session_in(cookie: Seq<char>) -> Option<Seq<char>> {
    without_prefix(trimmed(cookie), "session="@)
}

/// The session that a `Cookie` header names: that of the first of its
/// cookies, which semicolons keep apart, that names one.
pub open spec fn session_of(header: Seq<char>) -> Option<Seq<char>> {
    first_some(pieces(header, ';').map_values(|cookie: Seq<char>| session_in(cookie)))
}

/// The session that the `Cookie` header `header` names, if it names one.
pub fn session_from_cookies(header: &str) -> (r: Option<String>)
    ensures
        match r {
            Some(id) => session_of(header@) == Some(id@),
            None => session_of(header@) is None,
        },
{
    let cookies = split(&chars_of(header), ';');
    let ghost named = rows(cookies@).map_values(|cookie: Seq<char>| session_in(cookie));
    assert(named.skip(0) =~= named);
    for i in 0..cookies.len()
        invariant
            rows(cookies@) == pieces(header@, ';'),
            named == rows(cookies@).map_values(|cookie: Seq<char>| session_in(cookie)),
            first_some(named) == first_some(named.skip(i as int)),
    {
        assert(named.skip(i as int).drop_first() =~= named.skip(i + 1));
        assert(named.skip(i as int)[0] == session_in(cookies@[i as int]@));
        match strip_prefix(&trim(&cookies[i]), "session=") {
            Some(id) => {
                return Some(text_of(&id));
            },
            None => {},
        }
    }
    None
}

/// The cookie that names the session `id`.
pub open spec fn session_cookie_text(id: Seq<char>) -> Seq<char> {
    "session="@ + id + "; Path=/; SameSite=Lax"@
}

/// The value of the `Set-Cookie` header that names the session `id`.
pub fn session_cookie(id: &str) -> (r: String)
    ensures
        r@ == session_cookie_text(id@),
{
    let mut r = "session=".to_owned();
    r.append(id);
    r.append("; Path=/; SameSite=Lax");
    r
}

} // verus!
