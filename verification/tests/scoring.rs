use cipher_toy::ciphers::{caesar_cipher, CipherKind, Direction};
use cipher_toy::utils::candidates::with_score;
use cipher_toy::utils::ranking::{rank_candidates, ScoredCandidate};
use cipher_toy::utils::scoring::{make_wordlist, text_stats, TextStats};
use cipher_toy::utils::sweep::bounded_sweep;

fn words(list: &[&str]) -> Vec<String> {
    list.iter().map(|w| w.to_string()).collect()
}

fn common_words() -> Vec<String> {
    words(&[
        "the", "be", "to", "of", "and", "a", "in", "that", "have", "it", "for", "not", "on",
        "with", "he", "as", "you", "do", "at", "this", "but", "his", "by", "from", "they", "we",
        "say", "her", "she", "or", "an", "will", "my", "one", "all", "would", "there", "their",
        "what", "so", "up", "out", "if", "about", "who", "get", "which", "go", "me", "when",
        "make", "can", "like", "time", "no", "just", "him", "know", "take", "people", "into",
        "year", "your", "good", "some", "could", "them", "see", "other", "than", "then", "now",
        "look", "only", "come", "its", "over", "think", "also", "back", "after", "use", "two",
        "how", "our", "work", "first", "well", "way", "even", "new", "want", "because", "any",
        "these", "give", "day", "most", "us", "hello", "world", "quick", "brown", "fox",
    ])
}

const LETTER_LIKELIHOOD: [f64; 26] = [
    0.08167, 0.01492, 0.02782, 0.04253, 0.12702, 0.02228, 0.02015, 0.06094, 0.06966, 0.00153,
    0.00772, 0.04025, 0.02406, 0.06749, 0.07507, 0.01929, 0.00095, 0.05987, 0.06327, 0.09056,
    0.02758, 0.00978, 0.02360, 0.00150, 0.01974, 0.00074,
];
const FIRST_LETTER_LIKELIHOOD: [(char, f64); 10] = [
    ('t', 0.1594), ('a', 0.1550), ('i', 0.0823), ('s', 0.0775), ('o', 0.0712), ('c', 0.0597),
    ('m', 0.0426), ('f', 0.0408), ('p', 0.0400), ('w', 0.0382),
];
const LAST_LETTER_LIKELIHOOD: [(char, f64); 10] = [
    ('e', 0.1917), ('s', 0.1435), ('d', 0.0923), ('t', 0.0864), ('n', 0.0786), ('y', 0.0730),
    ('r', 0.0693), ('o', 0.0467), ('l', 0.0456), ('f', 0.0408),
];

fn table_sum(table: &[(char, f64); 10], counts: &[usize]) -> f64 {
    table.iter().map(|&(letter, p)| p * counts[(letter as u8 - b'a') as usize] as f64).sum()
}

/// The weighing of the counts: a fifth for the common words, a tenth for
/// the word lengths, a quarter for the share of letters, fifteen hundredths
/// for the first and last letters and three tenths for the letter
/// frequencies, times a hundred.
fn weigh(stats: &TextStats) -> f64 {
    if !stats.is_scorable() {
        return f64::MIN;
    }
    let chars = stats.chars as f64;
    let words = stats.word_lengths.len() as f64;
    let hit_rate = stats.word_hits as f64 * 3.0 / chars;
    let length_diff: f64 = stats.word_lengths.iter().map(|&l| (l as f64 - 4.7).abs().powf(1.3)).sum();
    let length_fit = 1.0 - (length_diff / words) / 8.0;
    let alphabetic_rate = stats.letters as f64 / chars;
    let first_last = (table_sum(&FIRST_LETTER_LIKELIHOOD, &stats.first_letters)
        + table_sum(&LAST_LETTER_LIKELIHOOD, &stats.last_letters))
        / 0.3511
        / words;
    let letter_diffs: f64 = (0..26)
        .map(|i| (LETTER_LIKELIHOOD[i] - stats.letter_counts[i] as f64 / chars).abs())
        .sum();
    100.0
        * (0.20 * hit_rate
            + 0.10 * length_fit
            + 0.25 * alphabetic_rate
            + 0.15 * first_last
            + 0.30 * (1.0 - letter_diffs))
}

fn score(text: &str, list: &Vec<String>) -> f64 {
    weigh(&text_stats(text, list))
}

fn letter(c: char) -> usize {
    (c as u8 - b'a') as usize
}

#[test]
fn stats_of_a_plain_sentence() {
    let stats = text_stats("  The quick brown Fox \n", &words(&["the", "fox", "dog", "ick", "The"]));
    // counted text: "the quick brown fox"
    assert_eq!(stats.chars, 19);
    assert_eq!(stats.letters, 16);
    assert_eq!(stats.word_lengths, vec![3, 5, 5, 3]);
    assert_eq!(stats.word_hits, 3);
    assert_eq!(stats.letter_counts.len(), 26);
    assert_eq!(stats.letter_counts.iter().sum::<usize>(), 16);
    assert_eq!(stats.letter_counts[letter('o')], 2);
    assert_eq!(stats.letter_counts[letter('u')], 1);
    assert_eq!(stats.letter_counts[letter('z')], 0);
    assert_eq!(stats.first_letters[letter('t')], 1);
    assert_eq!(stats.first_letters[letter('q')], 1);
    assert_eq!(stats.first_letters[letter('b')], 1);
    assert_eq!(stats.first_letters[letter('f')], 1);
    assert_eq!(stats.first_letters.iter().sum::<usize>(), 4);
    assert_eq!(stats.last_letters[letter('e')], 1);
    assert_eq!(stats.last_letters[letter('k')], 1);
    assert_eq!(stats.last_letters[letter('n')], 1);
    assert_eq!(stats.last_letters[letter('x')], 1);
    assert_eq!(stats.last_letters.iter().sum::<usize>(), 4);
    assert_eq!(stats.is_scorable(), true);
}

#[test]
fn stats_count_empty_words_between_blanks() {
    let stats = text_stats("a  b", &Vec::new());
    assert_eq!(stats.chars, 4);
    assert_eq!(stats.word_lengths, vec![1, 0, 1]);
    assert_eq!(stats.first_letters[letter('a')], 1);
    assert_eq!(stats.first_letters[letter('b')], 1);
    assert_eq!(stats.last_letters[letter('a')], 1);
    assert_eq!(stats.last_letters[letter('b')], 1);
}

#[test]
fn stats_count_only_letters_as_first_and_last() {
    let stats = text_stats("'tis 42 (so)", &Vec::new());
    assert_eq!(stats.word_lengths, vec![4, 2, 4]);
    assert_eq!(stats.letters, 5);
    assert_eq!(stats.first_letters.iter().sum::<usize>(), 0);
    assert_eq!(stats.last_letters[letter('s')], 1);
    assert_eq!(stats.last_letters.iter().sum::<usize>(), 1);
}

#[test]
fn stats_of_texts_with_nothing_to_weigh() {
    for text in ["", "   \n\t", "1234 5678", "!?"] {
        let stats = text_stats(text, &common_words());
        assert_eq!(stats.is_scorable(), false);
        assert_eq!(score(text, &common_words()), f64::MIN);
        assert_eq!(score(text, &common_words()).is_finite(), true);
        assert_eq!(score(text, &common_words()) < score("q", &Vec::new()), true);
    }
    let empty = text_stats("  ", &Vec::new());
    assert_eq!(empty.chars, 0);
    assert_eq!(empty.word_lengths, vec![0]);
}

#[test]
fn stats_leave_characters_beyond_ascii_alone() {
    let stats = text_stats("\u{c9}t\u{e9} na\u{ef}ve", &Vec::new());
    assert_eq!(stats.chars, 9);
    assert_eq!(stats.letters, 5);
    assert_eq!(stats.word_lengths, vec![3, 5]);
}

#[test]
fn every_word_of_the_list_counts_once() {
    let stats = text_stats("banana", &words(&["an", "na", "ban", "x", "", "banana", "bananas"]));
    assert_eq!(stats.word_hits, 5);
}

#[test]
fn word_list_is_lowered_and_rid_of_repeats() {
    let lines = words(&["The", "be", "", "the", "to", "BE", "of", "to", "", "\u{c9}t\u{e9}"]);
    assert_eq!(make_wordlist(&lines), words(&["the", "be", "to", "of", "\u{c9}t\u{e9}"]));
    assert_eq!(make_wordlist(&Vec::new()), Vec::<String>::new());
}

#[test]
fn score_of_a_known_text() {
    // "ab": two characters, two letters, one word of length 2, no hits.
    let got = score("ab", &Vec::new());
    let length_fit = 1.0 - (2.7f64.powf(1.3)) / 8.0;
    let first_last = (0.1550 + 0.0) / 0.3511;
    let diffs = (0.08167f64 - 0.5).abs() + (0.01492f64 - 0.5).abs() + (1.0 - 0.08167 - 0.01492 - 0.00003);
    let expected = 100.0 * (0.10 * length_fit + 0.25 + 0.15 * first_last + 0.30 * (1.0 - diffs));
    assert_eq!((got - expected).abs() < 1e-2, true);
}

#[test]
fn english_scores_above_gibberish() {
    let list = common_words();
    assert_eq!(score("the quick brown fox", &list) > score("xqzjklwpfm vbnryt", &list), true);
}

#[test]
fn caesar_sweep_ranks_the_plain_text_in_the_top_three() {
    let list = common_words();
    let secret = caesar_cipher("hello world", 5, Direction::Encrypt);
    let found = bounded_sweep(&secret, CipherKind::Caesar);
    let scored: Vec<ScoredCandidate> = found
        .into_iter()
        .map(|d| {
            let s = (score(&d.text, &list) * 1_000_000.0) as i64;
            with_score(d, s)
        })
        .collect();
    let ranked = rank_candidates(scored);
    let place = ranked.iter().position(|c| c.text == "hello world");
    assert_eq!(place.is_some(), true);
    assert_eq!(place.unwrap() < 3, true);
    for pair in ranked.windows(2) {
        assert_eq!(pair[0].score >= pair[1].score, true);
    }
}
