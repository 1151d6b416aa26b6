use wordle_word::{rank_by_coverage, rank_by_score};

fn pool(words: &[&str]) -> Vec<String> {
    words.iter().map(|w| w.to_string()).collect()
}

#[test]
fn ranking_of_one_word_is_that_word() {
    for (w, letters) in [("crane", 5u128), ("sassy", 3), ("aaaaa", 1), ("", 0)] {
        let ranked = rank_by_coverage(&pool(&[w]));
        assert_eq!(ranked, vec![(0, letters)]);
        let score = ranked[0].1 as f64 / 1.0;
        assert!(score.is_finite() && score >= 0.0);
    }
}

#[test]
fn ranking_of_no_word_is_empty() {
    assert!(rank_by_coverage(&Vec::new()).is_empty());
}

#[test]
fn ranking_audio_adieu_is_reproducible() {
    let words = pool(&["audio", "adieu"]);
    let ranked = rank_by_coverage(&words);
    // Both reach 9 of 10 letter slots; the tie keeps the order of the pool.
    assert_eq!(ranked, vec![(0, 9), (1, 9)]);
    for _ in 0..5 {
        assert_eq!(rank_by_coverage(&words), ranked);
    }
    let swapped = rank_by_coverage(&pool(&["adieu", "audio"]));
    assert_eq!(swapped, vec![(0, 9), (1, 9)]);
    let scores: Vec<f64> = ranked.iter().map(|e| e.1 as f64 / words.len() as f64).collect();
    assert_eq!(scores, vec![4.5, 4.5]);
}

#[test]
fn ranking_puts_the_widest_coverage_first() {
    let words = pool(&["fuzzy", "crane", "trace", "sassy", "caret", "zzzzz"]);
    // Letters held by: f1 u1 z2 y2 c3 r3 a4 n1 e3 t2 s1.
    let ranked = rank_by_coverage(&words);
    assert_eq!(
        ranked,
        vec![(2, 15), (4, 15), (1, 14), (3, 7), (0, 6), (5, 2)]
    );
}

#[test]
fn ranking_is_a_permutation_in_descending_order() {
    let mut words = Vec::new();
    let letters = ['a', 'b', 'c', 'd', 'e', 'f', 'g'];
    for i in 0..200usize {
        let w: String = (0..5).map(|k| letters[(i * (k + 3) + k * k + i / 7) % letters.len()]).collect();
        words.push(w);
    }
    let ranked = rank_by_coverage(&words);
    assert_eq!(ranked.len(), words.len());
    let mut places: Vec<usize> = ranked.iter().map(|e| e.0).collect();
    places.sort();
    assert_eq!(places, (0..words.len()).collect::<Vec<usize>>());
    for pair in ranked.windows(2) {
        assert!(pair[0].1 > pair[1].1 || (pair[0].1 == pair[1].1 && pair[0].0 < pair[1].0));
    }
    let counts = wordle_word::letter_presence_counts(&words);
    for (place, score) in &ranked {
        assert_eq!(*score, wordle_word::coverage(&words[*place], &counts));
    }
}

#[test]
fn scores_rank_highest_first_and_ties_in_order() {
    assert_eq!(
        rank_by_score(&vec![3, 9, 3, 0, 9, u128::MAX]),
        vec![(5, u128::MAX), (1, 9), (4, 9), (0, 3), (2, 3), (3, 0)]
    );
    assert_eq!(rank_by_score(&vec![7]), vec![(0, 7)]);
    assert!(rank_by_score(&Vec::new()).is_empty());
    assert_eq!(
        rank_by_score(&vec![1, 1, 1, 1]),
        vec![(0, 1), (1, 1), (2, 1), (3, 1)]
    );
}

#[test]
fn scores_rank_as_a_stable_sort_does() {
    let mut scores: Vec<u128> = Vec::new();
    let mut x: u128 = 12345;
    for _ in 0..1000 {
        x = (x * 1103515245 + 12345) % 2147483648;
        scores.push(x % 50);
    }
    let mut expected: Vec<(usize, u128)> = scores.iter().copied().enumerate().collect();
    expected.sort_by(|a, b| b.1.cmp(&a.1));
    assert_eq!(rank_by_score(&scores), expected);
}

#[test]
fn fractions_rank_by_the_numbers_that_order_as_they_do() {
    // The whole number that orders as the fraction does.
    let key = |score: f64| -> u128 {
        let bits = (score + 0.0).to_bits();
        let key = if bits >> 63 == 0 { bits | (1 << 63) } else { !bits };
        key as u128
    };
    let scores: Vec<f64> = vec![
        0.5, 4.5, 0.0, 2.25, 4.5, -0.0, 1e-300, f64::INFINITY, 0.75, -1.5, 2.25, f64::MIN_POSITIVE,
        f64::NEG_INFINITY, 1.0, 0.0, 3.999999999999999, 4.0, -1e300,
    ];
    let keys: Vec<u128> = scores.iter().map(|s| key(*s)).collect();
    let got: Vec<usize> = rank_by_score(&keys).into_iter().map(|e| e.0).collect();
    let mut expected: Vec<usize> = (0..scores.len()).collect();
    expected.sort_by(|a, b| scores[*b].partial_cmp(&scores[*a]).unwrap());
    assert_eq!(got, expected);
    // One word, blended or not, ranks alone with its own score.
    for score in [0.0, 0.5 * 5.0 + 0.5 * 1.0, 2.5] {
        let ranked = rank_by_score(&vec![key(score)]);
        assert_eq!(ranked, vec![(0, key(score))]);
        assert!(score.is_finite() && score >= 0.0);
    }
}
