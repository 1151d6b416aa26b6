//! A Wordle assistant.
//!
//! The crate gathers the feedback of each guess into a set of constraints
//! ([`GameState`]), keeps the pool of words that are still possible
//! ([`Session`]), trims regular plurals from the corpus
//! ([`filter_regular_plurals`]) and ranks the pool by letter coverage
//! ([`rank_by_coverage`]). It also reads the texts that a corpus comes from,
//! and prepares what a page of the game shows.
//!
//! The functions carry contracts over mathematical models of their data, and
//! Verus proves each body against its contract. A few functions of the
//! standard library and of other crates are taken on trust; the doc comment of
//! each such item says what is assumed of it.

pub mod constraints;
pub mod corpus;
pub mod input;
pub mod letters;
pub mod page;
pub mod plurals;
pub mod ranking;
pub mod scoring;
pub mod session;
pub mod text;
pub mod timestamp;
pub mod word_set;

pub use constraints::{Constraints, GameState};
pub use corpus::{
    available_words, commonality_entries, frequency_dictionary, frequency_entries, parse_word_list,
    past_answers, past_answers_from_html,
};
pub use input::{is_solved, is_valid_feedback, is_valid_guess, read_command, Command};
pub use letters::LetterSet;
pub use page::{
    build_grid_rows, is_stale, overview, session_cookie, session_from_cookies, Overview, TileData,
    STALE_AFTER_SECONDS, SUGGESTION_LIMIT,
};
pub use plurals::{filter_regular_plurals, is_regular_plural};
pub use ranking::{rank_by_coverage, rank_by_score};
pub use scoring::{coverage, letter_presence_counts, unique_letters};
pub use session::{retain_matching, Outcome, PoolStatus, Session};
pub use timestamp::{civil_from_unix, format_timestamp, CivilTime};
pub use word_set::WordSet;
