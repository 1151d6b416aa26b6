use wordle_word::{coverage, letter_presence_counts, unique_letters};

fn pool(words: &[&str]) -> Vec<String> {
    words.iter().map(|w| w.to_string()).collect()
}

#[test]
fn unique_letters_keep_first_occurrences() {
    assert_eq!(unique_letters("sassy"), vec!['s', 'a', 'y']);
    assert_eq!(unique_letters("crane"), vec!['c', 'r', 'a', 'n', 'e']);
    assert_eq!(unique_letters("eerie"), vec!['e', 'r', 'i']);
    assert_eq!(unique_letters(""), Vec::<char>::new());
}

#[test]
fn presence_counts_of_audio_and_adieu() {
    let counts = letter_presence_counts(&pool(&["audio", "adieu"]));
    assert_eq!(
        counts,
        vec![('a', 2), ('u', 2), ('d', 2), ('i', 2), ('o', 1), ('e', 1)]
    );
}

#[test]
fn a_repeated_letter_counts_once_per_word() {
    let counts = letter_presence_counts(&pool(&["sassy", "messy", "crane"]));
    assert_eq!(
        counts,
        vec![
            ('s', 2),
            ('a', 2),
            ('y', 2),
            ('m', 1),
            ('e', 2),
            ('c', 1),
            ('r', 1),
            ('n', 1)
        ]
    );
}

#[test]
fn empty_pool_has_no_counts() {
    assert!(letter_presence_counts(&Vec::new()).is_empty());
    assert!(letter_presence_counts(&pool(&["", ""])).is_empty());
}

#[test]
fn scoring_example_audio_adieu() {
    let words = pool(&["audio", "adieu"]);
    let counts = letter_presence_counts(&words);
    assert_eq!(coverage("audio", &counts), 9);
    assert_eq!(coverage("adieu", &counts), 9);
    // Frequency of a letter = count / pool size; score = sum over the
    // distinct letters.
    let score = |w: &str| coverage(w, &counts) as f64 / words.len() as f64;
    assert_eq!(score("audio"), 4.5);
    assert_eq!(score("adieu"), 4.5);
    // The same pool gives the same counts and scores again.
    assert_eq!(letter_presence_counts(&words), counts);
    assert_eq!(coverage("audio", &letter_presence_counts(&words)), 9);
}

#[test]
fn coverage_counts_each_distinct_letter_once() {
    let counts = letter_presence_counts(&pool(&["sassy", "messy", "crane"]));
    // s:2 + a:2 + y:2
    assert_eq!(coverage("sassy", &counts), 6);
    // m:1 + e:2 + s:2 + y:2
    assert_eq!(coverage("messy", &counts), 7);
    // Letters that the pool does not hold add nothing.
    assert_eq!(coverage("fjord", &counts), 1);
    assert_eq!(coverage("", &counts), 0);
    assert_eq!(coverage("sassy", &Vec::new()), 0);
}

#[test]
fn single_word_pool_scores_its_distinct_letters() {
    for w in ["crane", "sassy", "eerie", "aaaaa"] {
        let words = pool(&[w]);
        let counts = letter_presence_counts(&words);
        let c = coverage(w, &counts);
        assert_eq!(c, unique_letters(w).len() as u128);
        let score = c as f64 / words.len() as f64;
        assert!(score.is_finite());
        assert!(score >= 0.0);
    }
}

#[test]
fn coverage_takes_the_first_entry_of_a_letter() {
    let counts = vec![('a', 3usize), ('b', 5), ('a', 100)];
    assert_eq!(coverage("ab", &counts), 8);
    assert_eq!(coverage("ba", &counts), 8);
    assert_eq!(coverage("abba", &counts), 8);
}

#[test]
fn coverage_does_not_overflow() {
    let counts = vec![('a', usize::MAX), ('b', usize::MAX)];
    assert_eq!(coverage("ab", &counts), 2 * (usize::MAX as u128));
}
