use wordle_word::{
    build_grid_rows, is_stale, overview, session_cookie, session_from_cookies, GameState,
    STALE_AFTER_SECONDS, SUGGESTION_LIMIT,
};

#[test]
fn grid_rows_pair_letters_with_colours() {
    let guesses = vec![
        ("crane".to_string(), "gyxxg".to_string()),
        ("curse".to_string(), "ggggg".to_string()),
    ];
    let grid = build_grid_rows(&guesses);
    assert_eq!(grid.len(), 2);
    let shown: Vec<(char, &str)> = grid[0].iter().map(|t| (t.letter, t.class.as_str())).collect();
    assert_eq!(
        shown,
        vec![('c', "green"), ('r', "yellow"), ('a', "grey"), ('n', "grey"), ('e', "green")]
    );
    assert!(grid[1].iter().all(|t| t.class == "green"));
    assert!(build_grid_rows(&Vec::new()).is_empty());
}

#[test]
fn grid_rows_stop_at_the_shorter_text_and_grey_unknown_marks() {
    let grid = build_grid_rows(&vec![
        ("crane".to_string(), "g?".to_string()),
        ("ab".to_string(), "yyyyy".to_string()),
        ("".to_string(), "ggggg".to_string()),
    ]);
    let shown: Vec<Vec<(char, &str)>> = grid
        .iter()
        .map(|row| row.iter().map(|t| (t.letter, t.class.as_str())).collect())
        .collect();
    assert_eq!(
        shown,
        vec![
            vec![('c', "green"), ('r', "grey")],
            vec![('a', "yellow"), ('b', "yellow")],
            vec![],
        ]
    );
}

#[test]
fn overview_of_a_new_game_shows_nothing() {
    let o = overview(&GameState::new());
    assert!(!o.has_green);
    assert!(!o.has_constraints);
    assert_eq!(o.green_display, "_____");
    assert_eq!(o.required_display, "");
    assert_eq!(o.excluded_display, "");
}

#[test]
fn overview_tells_what_is_known() {
    let mut state = GameState::new();
    state.update("crane", "xxxxx");
    let o = overview(&state);
    assert!(!o.has_green);
    assert!(o.has_constraints);
    assert_eq!(o.excluded_display, "acenr");
    state.update("moist", "yxxxg");
    let o = overview(&state);
    assert!(o.has_green);
    assert!(o.has_constraints);
    assert_eq!(o.green_display, "____T");
    assert_eq!(o.required_display, "mt");
    assert_eq!(o.excluded_display, "aceinors");
}

#[test]
fn an_underscore_in_green_reads_as_unknown() {
    let mut state = GameState::new();
    state.update("_____", "ggggg");
    let o = overview(&state);
    assert!(!o.has_green);
    assert!(o.has_constraints);
    assert_eq!(o.required_display, "_");
}

#[test]
fn session_is_read_from_the_cookie_header() {
    let cases: [(&str, Option<&str>); 12] = [
        ("session=abc", Some("abc")),
        ("theme=dark; session=abc", Some("abc")),
        ("theme=dark;session=abc;lang=en", Some("abc")),
        ("  session=abc  ; x=1", Some("abc")),
        ("session=first; session=second", Some("first")),
        ("session=", Some("")),
        ("session=a b", Some("a b")),
        ("xsession=abc", None),
        ("Session=abc", None),
        ("session =abc", None),
        ("theme=dark", None),
        ("", None),
    ];
    for (header, expected) in cases {
        assert_eq!(
            session_from_cookies(header),
            expected.map(|s| s.to_string()),
            "session of {:?}",
            header
        );
        // The same answer as the chain of string methods gives.
        let chained = header.split(';').find_map(|cookie| {
            let cookie = cookie.trim();
            cookie.strip_prefix("session=").map(|v| v.to_string())
        });
        assert_eq!(session_from_cookies(header), chained);
    }
}

#[test]
fn session_cookie_names_the_session() {
    assert_eq!(session_cookie("abc"), "session=abc; Path=/; SameSite=Lax");
    assert_eq!(session_cookie(""), "session=; Path=/; SameSite=Lax");
    assert_eq!(
        session_from_cookies(&session_cookie("1f0c")),
        Some("1f0c".to_string())
    );
}

#[test]
fn word_data_is_stale_after_twelve_hours() {
    assert_eq!(STALE_AFTER_SECONDS, 12 * 3600);
    assert!(!is_stale(0));
    assert!(!is_stale(12 * 3600));
    assert!(is_stale(12 * 3600 + 1));
    assert!(is_stale(u64::MAX));
    assert_eq!(SUGGESTION_LIMIT, 15);
}
