use wordle_word::text::{
    chars_of, find_char, has_char, lines, slice_of, split, split_once, string_of, strip_prefix,
    to_lowercase, trim,
};

fn chars(s: &str) -> Vec<char> {
    s.chars().collect()
}

fn text(v: &[char]) -> String {
    v.iter().collect()
}

fn texts(v: &[Vec<char>]) -> Vec<String> {
    v.iter().map(|l| l.iter().collect()).collect()
}

#[test]
fn chars_and_strings_convert_both_ways() {
    assert_eq!(chars_of("héllo"), vec!['h', 'é', 'l', 'l', 'o']);
    assert_eq!(chars_of(""), Vec::<char>::new());
    let v = chars("crane");
    assert_eq!(string_of(&v, 0, 5), "crane");
    assert_eq!(string_of(&v, 1, 4), "ran");
    assert_eq!(string_of(&v, 2, 2), "");
    assert_eq!(slice_of(&v, 1, 3), vec!['r', 'a']);
    assert!(has_char(&v, 'n'));
    assert!(!has_char(&v, 'z'));
}

#[test]
fn lines_agree_with_the_standard_library() {
    let samples = [
        "",
        "\n",
        "\r\n",
        "one",
        "one\n",
        "one\ntwo",
        "one\r\ntwo\r\n",
        "one\n\ntwo\n",
        "one\r",
        "one\r\r\ntwo",
        "\r\none\n\r",
        "a\rb\nc",
        "  spaced  \n\ttabbed\t\n",
        "\n\n\n",
    ];
    for s in samples {
        let expected: Vec<String> = s.lines().map(|l| l.to_string()).collect();
        assert_eq!(texts(&lines(s)), expected, "lines of {:?}", s);
    }
}

#[test]
fn lines_of_a_small_text() {
    assert_eq!(texts(&lines("crane\r\ntrace\n\nlearn")), vec!["crane", "trace", "", "learn"]);
}

#[test]
fn trim_agrees_with_the_standard_library() {
    let samples = [
        "",
        " ",
        "crane",
        "  crane",
        "crane  ",
        " \t crane \r\n",
        "a b",
        " a b ",
        "\u{a0}wide\u{3000}",
        "\u{2028}x\u{2029}",
        "\u{200b}zero\u{200b}",
        " \n ",
    ];
    for s in samples {
        assert_eq!(text(&trim(&chars(s))), s.trim(), "trim of {:?}", s);
    }
}

#[test]
fn lower_case_agrees_with_the_standard_library() {
    for s in ["", "Crane", "CRANE", "crane", "ÉCOLE école", "A1-Z9 @[`{"] {
        assert_eq!(text(&to_lowercase(&chars(s))), s.to_ascii_lowercase());
    }
}

#[test]
fn split_agrees_with_the_standard_library() {
    for s in ["", ";", "a", "a;b", "a;b;", ";a;;b", "session=1; theme=dark", ";;"] {
        let expected: Vec<String> = s.split(';').map(|p| p.to_string()).collect();
        assert_eq!(texts(&split(&chars(s), ';')), expected, "split of {:?}", s);
    }
}

#[test]
fn split_once_agrees_with_the_standard_library() {
    for s in ["", " ", "word", "the 123", "the  123", " lead", "trail ", "a b c"] {
        let expected = s.split_once(' ').map(|(a, b)| (a.to_string(), b.to_string()));
        let got = split_once(&chars(s), ' ').map(|(a, b)| (text(&a), text(&b)));
        assert_eq!(got, expected, "split_once of {:?}", s);
    }
}

#[test]
fn strip_prefix_agrees_with_the_standard_library() {
    let cases = [
        ("session=abc", "session="),
        ("session=", "session="),
        ("session", "session="),
        ("xsession=abc", "session="),
        ("", "session="),
        ("anything", ""),
        ("Session=abc", "session="),
    ];
    for (s, p) in cases {
        let expected = s.strip_prefix(p).map(|r| r.to_string());
        assert_eq!(strip_prefix(&chars(s), p).map(|r| text(&r)), expected);
    }
}

#[test]
fn find_char_gives_the_first_place_from_a_start() {
    let v = chars("a;b;c");
    assert_eq!(find_char(&v, 0, ';'), 1);
    assert_eq!(find_char(&v, 1, ';'), 1);
    assert_eq!(find_char(&v, 2, ';'), 3);
    assert_eq!(find_char(&v, 4, ';'), 5);
    assert_eq!(find_char(&v, 5, ';'), 5);
    assert_eq!(find_char(&v, 0, 'z'), 5);
}

#[test]
fn lower_case_changes_the_letters_a_to_z_only() {
    let all: Vec<char> = (0..=0x10FFFFu32).filter_map(char::from_u32).collect();
    let lowered = to_lowercase(&all);
    assert_eq!(lowered.len(), all.len());
    for (c, l) in all.iter().zip(lowered.iter()) {
        let expected = if ('A'..='Z').contains(c) {
            char::from_u32(*c as u32 + 32).unwrap()
        } else {
            *c
        };
        assert_eq!(*l, expected);
    }
}

#[test]
fn white_space_is_the_same_set_as_in_the_standard_library() {
    let listed = |c: char| {
        matches!(
            c,
            '\u{9}'..='\u{d}'
                | ' '
                | '\u{85}'
                | '\u{a0}'
                | '\u{1680}'
                | '\u{2000}'..='\u{200a}'
                | '\u{2028}'
                | '\u{2029}'
                | '\u{202f}'
                | '\u{205f}'
                | '\u{3000}'
        )
    };
    let mut count = 0;
    for c in (0..=0x10FFFFu32).filter_map(char::from_u32) {
        assert_eq!(c.is_whitespace(), listed(c), "U+{:04X}", c as u32);
        // A single character is trimmed away exactly if it is white space.
        assert_eq!(trim(&vec![c]).is_empty(), listed(c), "U+{:04X}", c as u32);
        if listed(c) {
            count += 1;
        }
    }
    assert_eq!(count, 25);
}
