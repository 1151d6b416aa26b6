use wordle_word::{GameState, LetterSet};

fn letters_of(set: &LetterSet) -> String {
    set.ordered().into_iter().collect()
}

#[test]
fn new_state_knows_nothing() {
    let state = GameState::new();
    assert_eq!(state.greens, [None; 5]);
    for i in 0..5 {
        assert!(state.yellows_not_at[i].is_empty());
    }
    assert!(state.required_letters.is_empty());
    assert!(state.excluded_letters.is_empty());
    assert!(state.matches("crane"));
    assert!(state.matches(""));
    assert!(state.matches("anything at all"));
}

#[test]
fn default_state_is_the_new_state() {
    let state = GameState::default();
    assert_eq!(state.green_display(), "_____");
    assert_eq!(state.required_display(), "");
    assert_eq!(state.excluded_display(), "");
}

#[test]
fn update_takes_in_each_kind_of_mark() {
    let mut state = GameState::new();
    state.update("crane", "gyxxg");
    assert_eq!(state.greens, [Some('c'), None, None, None, Some('e')]);
    assert_eq!(letters_of(&state.required_letters), "cer");
    assert_eq!(letters_of(&state.excluded_letters), "an");
    assert_eq!(letters_of(&state.yellows_not_at[0]), "");
    assert_eq!(letters_of(&state.yellows_not_at[1]), "r");
    assert_eq!(letters_of(&state.yellows_not_at[2]), "a");
    assert_eq!(letters_of(&state.yellows_not_at[3]), "n");
    assert_eq!(letters_of(&state.yellows_not_at[4]), "");
}

#[test]
fn end_to_end_crane_gyxxg() {
    let corpus = vec!["crane".to_string(), "trace".to_string(), "learn".to_string()];
    let mut state = GameState::new();
    state.update("crane", "gyxxg");
    assert!(state.required_letters.contains('c'));
    assert!(state.required_letters.contains('e'));
    assert_eq!(state.greens[0], Some('c'));
    assert_eq!(state.greens[4], Some('e'));
    assert!(state.yellows_not_at[1].contains('r'));
    assert!(state.excluded_letters.contains('a'));
    assert!(state.excluded_letters.contains('n'));
    // "trace" and "learn" do not start with the green `c`, and both hold the
    // excluded `a`; "crane" has `r` at the position where it is banned.
    assert!(!state.matches("trace"));
    assert!(!state.matches("learn"));
    assert!(!state.matches("crane"));
    let survivors: Vec<&String> = corpus.iter().filter(|w| state.matches(w)).collect();
    assert!(survivors.is_empty());
    // A word of the shape c???e with `r` elsewhere than second and without
    // `a` and `n` is kept.
    assert!(state.matches("curse"));
    assert!(state.matches("corse"));
    assert!(!state.matches("cruse"));
    assert!(!state.matches("cense"));
    assert!(!state.matches("carve"));
}

#[test]
fn grey_on_a_confirmed_letter_bans_the_position_only() {
    let mut state = GameState::new();
    state.update("sassy", "gxxxg");
    // `s` is green at the first position, so the grey `s` at the third and
    // fourth positions must not exclude it.
    assert!(state.required_letters.contains('s'));
    assert!(!state.excluded_letters.contains('s'));
    assert!(state.yellows_not_at[2].contains('s'));
    assert!(state.yellows_not_at[3].contains('s'));
    assert_eq!(state.greens, [Some('s'), None, None, None, Some('y')]);
    assert_eq!(letters_of(&state.excluded_letters), "a");
    assert_eq!(letters_of(&state.required_letters), "sy");
    assert!(state.matches("soggy"));
    assert!(!state.matches("sissy"));
    assert!(!state.matches("saucy"));
}

#[test]
fn grey_before_its_green_twin_is_guarded_too() {
    let mut state = GameState::new();
    // The grey `e` comes first, the green `e` later in the same guess.
    state.update("eerie", "xxxxg");
    assert!(state.required_letters.contains('e'));
    assert!(!state.excluded_letters.contains('e'));
    assert!(state.yellows_not_at[0].contains('e'));
    assert!(state.yellows_not_at[1].contains('e'));
    assert_eq!(letters_of(&state.excluded_letters), "ir");
}

#[test]
fn grey_on_a_letter_required_by_an_earlier_guess_is_guarded() {
    let mut state = GameState::new();
    state.update("crane", "xyxxx");
    assert!(state.required_letters.contains('r'));
    state.update("rusty", "xxxxx");
    assert!(state.required_letters.contains('r'));
    assert!(!state.excluded_letters.contains('r'));
    assert!(state.yellows_not_at[0].contains('r'));
    assert_eq!(letters_of(&state.excluded_letters), "acenstuy");
}

#[test]
fn a_later_hit_lifts_an_exclusion() {
    let mut state = GameState::new();
    state.update("crane", "xxxxx");
    assert!(state.excluded_letters.contains('a'));
    state.update("audio", "yxxxx");
    assert!(!state.excluded_letters.contains('a'));
    assert!(state.required_letters.contains('a'));
}

#[test]
fn matching_only_narrows_under_consistent_feedback() {
    let words = [
        "crane", "trace", "learn", "curse", "corse", "cruse", "sassy", "soggy", "tocks", "audio",
        "adieu", "", "ab", "abcdefgh",
    ];
    let turns = [("crane", "gyxxg"), ("curse", "gyyxg"), ("corse", "gxggg")];
    let mut state = GameState::new();
    let mut before: Vec<bool> = words.iter().map(|w| state.matches(w)).collect();
    for (guess, feedback) in turns {
        state.update(guess, feedback);
        let after: Vec<bool> = words.iter().map(|w| state.matches(w)).collect();
        for i in 0..words.len() {
            assert!(before[i] || !after[i], "{} came back", words[i]);
        }
        before = after;
    }
}

#[test]
fn feedback_that_contradicts_a_green_can_readmit_a_word() {
    let mut state = GameState::new();
    state.update("crane", "gxxxx");
    assert!(!state.matches("tocks"));
    // The second green at the first position replaces the first one.
    state.update("trace", "gxxxx");
    assert!(state.matches("tocks"));
}

#[test]
fn matches_reads_five_positions_and_all_letters() {
    let mut state = GameState::new();
    state.update("crane", "gxxxx");
    // Shorter than five: the green first position is still checked.
    assert!(state.matches("c"));
    assert!(!state.matches("b"));
    // No position at all, but `c` is required.
    assert!(!state.matches(""));
    // Longer than five: excluded letters count wherever they stand.
    assert!(state.matches("cloudy"));
    assert!(!state.matches("cloudier"));
    assert!(state.matches("cubism"));
    assert!(!state.matches("cloudburst"));
}

#[test]
fn update_reads_the_first_five_characters() {
    let mut long = GameState::new();
    long.update("cranes", "gyxxgx");
    let mut short = GameState::new();
    short.update("crane", "gyxxg");
    assert_eq!(long.greens, short.greens);
    assert_eq!(long.required_display(), short.required_display());
    assert_eq!(long.excluded_display(), short.excluded_display());
    assert!(!long.excluded_letters.contains('s'));
}

#[test]
fn unknown_marks_teach_nothing() {
    let mut state = GameState::new();
    state.update("crane", "?- GY");
    assert_eq!(state.green_display(), "_____");
    assert_eq!(state.required_display(), "");
    assert_eq!(state.excluded_display(), "");
    for i in 0..5 {
        assert!(state.yellows_not_at[i].is_empty());
    }
}

#[test]
fn green_display_shows_upper_case_letters_and_blanks() {
    let mut state = GameState::new();
    assert_eq!(state.green_display(), "_____");
    state.update("crane", "gyxxg");
    assert_eq!(state.green_display(), "C___E");
    state.update("curse", "ggxxg");
    assert_eq!(state.green_display(), "CU__E");
}

#[test]
fn green_display_leaves_other_characters_as_they_are() {
    let mut state = GameState::new();
    state.update("é1Zz-", "ggggg");
    assert_eq!(state.green_display(), "é1ZZ-");
}

#[test]
fn required_and_excluded_display_are_sorted() {
    let mut state = GameState::new();
    state.update("zebra", "yxyxx");
    assert_eq!(state.required_display(), "bz");
    assert_eq!(state.excluded_display(), "aer");
    state.update("blitz", "yxxxy");
    assert_eq!(state.required_display(), "bz");
    assert_eq!(state.excluded_display(), "aeilrt");
}

#[test]
fn display_lists_what_is_known() {
    let mut state = GameState::new();
    assert_eq!(state.display(), "  Green:    _____\n");
    state.update("crane", "gyxxg");
    assert_eq!(
        state.display(),
        "  Green:    C___E\n  Required: cer\n  Excluded: an\n"
    );
    let mut only_required = GameState::new();
    only_required.update("crane", "yyyyy");
    assert_eq!(
        only_required.display(),
        "  Green:    _____\n  Required: acenr\n"
    );
    let mut only_excluded = GameState::new();
    only_excluded.update("crane", "xxxxx");
    assert_eq!(
        only_excluded.display(),
        "  Green:    _____\n  Excluded: acenr\n"
    );
}

#[test]
fn required_and_excluded_stay_apart() {
    let turns = [
        ("sassy", "gxxxg"),
        ("eerie", "xxxxg"),
        ("crane", "xxxxx"),
        ("audio", "yxxxx"),
        ("radar", "xyxyx"),
    ];
    let mut state = GameState::new();
    for (guess, feedback) in turns {
        state.update(guess, feedback);
        for c in state.required_letters.letters() {
            assert!(!state.excluded_letters.contains(*c));
        }
    }
}

#[test]
fn the_same_feedback_twice_teaches_nothing_new() {
    for (guess, feedback) in [("crane", "gyxxg"), ("sassy", "gxxxg"), ("eerie", "xxxxg")] {
        let mut once = GameState::new();
        once.update("moist", "xxxyx");
        once.update(guess, feedback);
        let mut twice = GameState::new();
        twice.update("moist", "xxxyx");
        twice.update(guess, feedback);
        twice.update(guess, feedback);
        assert_eq!(once.display(), twice.display());
        for i in 0..5 {
            assert_eq!(
                letters_of(&once.yellows_not_at[i]),
                letters_of(&twice.yellows_not_at[i])
            );
        }
    }
}

#[test]
fn green_display_changes_the_letters_a_to_z_only() {
    let all: Vec<char> = (0..=0x10FFFFu32)
        .filter_map(char::from_u32)
        .filter(|c| (*c as u32) < 0x3000 || (*c as u32) % 97 == 0)
        .collect();
    for group in all.chunks(5) {
        let mut guess: String = group.iter().collect();
        while guess.chars().count() < 5 {
            guess.push('a');
        }
        let mut state = GameState::new();
        state.update(&guess, "ggggg");
        let expected: String = guess
            .chars()
            .map(|c| {
                if ('a'..='z').contains(&c) {
                    char::from_u32(c as u32 - 32).unwrap()
                } else {
                    c
                }
            })
            .collect();
        assert_eq!(state.green_display(), expected);
    }
}
