use wordle_word::{
    available_words, commonality_entries, frequency_dictionary, frequency_entries,
    parse_word_list, past_answers, past_answers_from_html, WordSet,
};

fn pool(words: &[&str]) -> Vec<String> {
    words.iter().map(|w| w.to_string()).collect()
}

fn set(words: &[&str]) -> WordSet {
    let mut s = WordSet::new();
    for w in words {
        s.insert(w);
    }
    s
}

fn entries(pairs: &[(&str, &str)]) -> Vec<(String, String)> {
    pairs.iter().map(|(a, b)| (a.to_string(), b.to_string())).collect()
}

#[test]
fn word_list_is_trimmed_and_without_blanks_and_repeats() {
    let content = "crane\n  trace \r\n\n\t\nlearn\ncrane\n trace\nlast";
    assert_eq!(
        parse_word_list(content),
        pool(&["crane", "trace", "learn", "last"])
    );
    assert!(parse_word_list("").is_empty());
    assert!(parse_word_list("\n \n\r\n").is_empty());
}

#[test]
fn word_list_holds_the_same_words_as_a_set_of_trimmed_lines() {
    let content = "aback\nabase\n\nabate \nabbey\n  \nabase\nabbot\n";
    let expected: std::collections::HashSet<String> = content
        .lines()
        .map(|s| s.trim().to_string())
        .filter(|s| !s.is_empty())
        .collect();
    let got = parse_word_list(content);
    assert_eq!(got.len(), expected.len());
    for w in &got {
        assert!(expected.contains(w));
    }
}

#[test]
fn frequency_entries_split_at_the_first_space() {
    let content = "you 28787591\nthe 22761659\nnospace\n\nspots 12 34\n lead 5\ntrail \r\nlast 7";
    assert_eq!(
        frequency_entries(content),
        entries(&[
            ("you", "28787591"),
            ("the", "22761659"),
            ("spots", "12 34"),
            ("", "lead 5"),
            ("trail", ""),
            ("last", "7"),
        ])
    );
    assert!(frequency_entries("").is_empty());
}

#[test]
fn frequency_dictionary_holds_every_listed_word() {
    let d = frequency_dictionary(&entries(&[("spot", "9"), ("fox", "x"), ("house", ""), ("spot", "1")]));
    assert!(d.contains("spot"));
    assert!(d.contains("fox"));
    assert!(d.contains("house"));
    assert!(!d.contains("9"));
    assert!(!d.contains("spots"));
    assert!(!frequency_dictionary(&Vec::new()).contains(""));
}

#[test]
fn commonality_entries_are_five_byte_words_of_the_pool() {
    let all = entries(&[
        ("crane", "100"),
        ("trace", "50"),
        ("spot", "70"),
        ("houses", "60"),
        ("learn", "oops"),
        ("étés", "3"),
        ("crane", "7"),
        ("other", "1"),
    ]);
    let words = set(&["crane", "learn", "spot", "houses", "étés", "fjord"]);
    assert_eq!(
        commonality_entries(&all, &words),
        entries(&[("crane", "100"), ("learn", "oops"), ("crane", "7")])
    );
    // `étés` has four characters in six bytes, `ététe` five characters in
    // seven bytes: neither takes five bytes.
    let odd = entries(&[("ététe", "1"), ("été", "2")]);
    assert_eq!(
        commonality_entries(&odd, &set(&["ététe", "été"])),
        entries(&[("été", "2")])
    );
}

#[test]
fn available_words_are_those_not_used() {
    let all = pool(&["crane", "trace", "learn", "audio", "adieu"]);
    assert_eq!(
        available_words(&all, &pool(&["trace", "audio", "zebra"])),
        pool(&["crane", "learn", "adieu"])
    );
    assert_eq!(available_words(&all, &Vec::new()), all);
    assert!(available_words(&Vec::new(), &pool(&["crane"])).is_empty());
}

#[test]
fn past_answers_are_normalised_words() {
    let items = vec![
        Some(" CRANE ".to_string()),
        Some("trace".to_string()),
        None,
        Some("too long".to_string()),
        Some("abc".to_string()),
        Some("ab1de".to_string()),
        Some("\tLearn\n".to_string()),
        Some("".to_string()),
    ];
    assert_eq!(past_answers(&items), pool(&["crane", "trace", "learn"]));
    let repeated = vec![
        Some("trace".to_string()),
        Some("CRANE".to_string()),
        Some(" trace".to_string()),
        Some("crane".to_string()),
    ];
    assert_eq!(past_answers(&repeated), pool(&["trace", "crane"]));
    assert!(past_answers(&Vec::new()).is_empty());
}

#[test]
fn past_answers_are_read_from_the_list_of_the_article() {
    let html = "<html><head><title>Past answers</title></head><body>\
        <ul class=\"inline\"><li>WRONG</li></ul>\
        <div class=\"article_body_content\">\
        <p>Every answer so far:</p>\
        <ul class=\"other\"><li>OTHER</li></ul>\
        <ul class=\"inline\"><li>CRANE</li><li> Trace </li><li><b>LEARN</b> (today)</li>\
        <li></li><li>TOOLONG</li><li>ab</li></ul>\
        <ul class=\"inline\"><li>LATER</li></ul>\
        </div>\
        <div class=\"article_body_content\"><ul class=\"inline\"><li>SECOND</li></ul></div>\
        </body></html>";
    let answers = past_answers_from_html(html).expect("the page holds the list");
    assert_eq!(answers, pool(&["crane", "trace", "learn"]));
}

#[test]
fn a_page_without_the_list_gives_nothing() {
    assert!(past_answers_from_html("").is_none());
    assert!(past_answers_from_html("<html><body><p>moved</p></body></html>").is_none());
    // The article is there, the list is not.
    assert!(past_answers_from_html(
        "<div class=\"article_body_content\"><ul><li>CRANE</li></ul></div>"
    )
    .is_none());
    // The list is there but empty.
    let empty = past_answers_from_html(
        "<div class=\"article_body_content\"><ul class=\"inline\"></ul></div>",
    )
    .expect("the page holds the list");
    assert!(empty.is_empty());
}

#[test]
fn a_page_that_is_too_large_is_not_read() {
    assert_eq!(wordle_word::corpus::MAX_PAGE_BYTES, 256 * 1024 * 1024);
    let list = "<div class=\"article_body_content\"><ul class=\"inline\"><li>CRANE</li></ul></div>";
    // One byte more than the bound.
    let mut page = String::with_capacity(wordle_word::corpus::MAX_PAGE_BYTES + 1);
    page.push_str(list);
    while page.len() < wordle_word::corpus::MAX_PAGE_BYTES {
        page.push(' ');
    }
    page.push(' ');
    assert_eq!(page.len(), wordle_word::corpus::MAX_PAGE_BYTES + 1);
    assert!(past_answers_from_html(&page).is_none());
}

#[test]
fn a_word_of_the_game_is_kept_as_it_is() {
    assert_eq!(parse_word_list("crane"), pool(&["crane"]));
    assert_eq!(past_answers(&vec![Some("crane".to_string())]), pool(&["crane"]));
}
