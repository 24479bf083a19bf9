use cipher_toy::ciphers::{
    affine_cipher, caesar_cipher, col_trans_cipher, railfence_cipher, vigenere_cipher, CipherError,
    CipherKind, Direction,
};
use cipher_toy::utils::candidates::{with_score, Decoded};
use cipher_toy::utils::progress::{chunk_share, share_of, Progress, FULL_TURN, HOLD_BACK};
use cipher_toy::utils::ranking::{
    dedup_candidates, rank_candidates, sort_candidates, split_top, top_len, ScoredCandidate,
};
use cipher_toy::utils::report::{format_entry, format_line};
use cipher_toy::utils::run::{Action, Event, Phase, Run};
use cipher_toy::utils::sweep::{
    bounded_sweep, chunk_bounds, chunk_count, dictionary_sweep, limited_len, sweep_all,
    sweep_chunk, sweep_kind, sweep_strategy, Sweep,
};

fn pairs(found: &[Decoded]) -> Vec<(String, String)> {
    found.iter().map(|d| (d.text.clone(), d.label.clone())).collect()
}

fn triples(found: &[ScoredCandidate]) -> Vec<(i64, String, String)> {
    found.iter().map(|c| (c.score, c.text.clone(), c.label.clone())).collect()
}

fn candidate(score: i64, text: &str, label: &str) -> ScoredCandidate {
    ScoredCandidate { score, text: text.to_string(), label: label.to_string() }
}

#[test]
fn sweep_strategy_of_every_cipher() {
    for kind in [CipherKind::Caesar, CipherKind::Atbash, CipherKind::Rot13, CipherKind::Polybius,
        CipherKind::Affine, CipherKind::Baconian, CipherKind::Railfence]
    {
        assert_eq!(sweep_strategy(kind), Sweep::Bounded);
    }
    for kind in [CipherKind::Vigenere, CipherKind::Beaufort, CipherKind::Autokey,
        CipherKind::SimpleSub, CipherKind::Columnar]
    {
        assert_eq!(sweep_strategy(kind), Sweep::Dictionary);
    }
    assert_eq!(sweep_strategy(CipherKind::Base64), Sweep::Unswept);
}

#[test]
fn caesar_sweep_tries_eighty_shifts() {
    let secret = caesar_cipher("hello world", 5, Direction::Encrypt);
    let found = bounded_sweep(&secret, CipherKind::Caesar);
    assert_eq!(found.len(), 80);
    assert_eq!(found[4].text, "hello world");
    assert_eq!(found[4].label, "Caesar");
    for (i, d) in found.iter().enumerate() {
        assert_eq!(d.text, caesar_cipher(&secret, i as i32 + 1, Direction::Decrypt));
    }
}

#[test]
fn single_sweeps_give_one_candidate() {
    assert_eq!(pairs(&bounded_sweep("svool", CipherKind::Atbash)), vec![("hello".to_string(), "Atbash".to_string())]);
    assert_eq!(pairs(&bounded_sweep("uryyb", CipherKind::Rot13)), vec![("hello".to_string(), "ROT13".to_string())]);
    assert_eq!(pairs(&bounded_sweep("mjqqt", CipherKind::Polybius)), vec![("hello".to_string(), "Polybius".to_string())]);
    assert_eq!(pairs(&bounded_sweep("00007", CipherKind::Baconian)), vec![("b".to_string(), "Bacon".to_string())]);
}

#[test]
fn baconian_sweep_of_malformed_text_gives_nothing() {
    assert_eq!(bounded_sweep("hello", CipherKind::Baconian).len(), 0);
}

#[test]
fn affine_sweep_passes_over_bad_multipliers() {
    let secret = affine_cipher("hello world", 5, 8, Direction::Encrypt).unwrap();
    let found = bounded_sweep(&secret, CipherKind::Affine);
    assert_eq!(found.len(), 12 * 27);
    // the multipliers in order 1, 3, 5, ...: the pair (5, 8) is number 2 * 27 + 8
    assert_eq!(found[2 * 27 + 8].text, "hello world");
    assert_eq!(found[0].text, affine_cipher(&secret, 1, 0, Direction::Decrypt).unwrap());
    assert_eq!(found[26].text, affine_cipher(&secret, 1, 26, Direction::Decrypt).unwrap());
    assert_eq!(found[27].text, affine_cipher(&secret, 3, 0, Direction::Decrypt).unwrap());
    assert_eq!(found.iter().all(|d| d.label == "Affine"), true);
}

#[test]
fn rail_sweep_tries_every_rail_count() {
    let secret = railfence_cipher("hello world", 4, Direction::Encrypt).unwrap();
    let found = bounded_sweep(&secret, CipherKind::Railfence);
    assert_eq!(found.len(), 10);
    assert_eq!(found[0].label, "Railfence[2]");
    assert_eq!(found[2].label, "Railfence[4]");
    assert_eq!(found[2].text, "hello world");
    assert_eq!(found[9].label, "Railfence[11]");
    assert_eq!(bounded_sweep("a", CipherKind::Railfence).len(), 0);
}

#[test]
fn sweeps_of_an_empty_message_give_nothing() {
    for kind in [CipherKind::Caesar, CipherKind::Atbash, CipherKind::Affine, CipherKind::Railfence] {
        assert_eq!(bounded_sweep("", kind).len(), 0);
    }
    let keys = vec!["key".to_string()];
    assert_eq!(dictionary_sweep("", CipherKind::Vigenere, &keys).len(), 0);
}

#[test]
fn bounded_sweep_of_other_ciphers_gives_nothing() {
    assert_eq!(bounded_sweep("hello", CipherKind::Vigenere).len(), 0);
    assert_eq!(bounded_sweep("aGVsbG8=", CipherKind::Base64).len(), 0);
}

#[test]
fn dictionary_sweep_tries_every_key() {
    let secret = vigenere_cipher("hello world", "lemon", Direction::Encrypt).unwrap();
    let keys: Vec<String> = ["apple", "lemon", "", "cl\u{e9}", "pear"].iter().map(|s| s.to_string()).collect();
    let found = dictionary_sweep(&secret, CipherKind::Vigenere, &keys);
    // the empty key and the key beyond ASCII are refused and give nothing
    assert_eq!(found.len(), 3);
    assert_eq!(found[0].label, "Vigenere - apple");
    assert_eq!(found[1].label, "Vigenere - lemon");
    assert_eq!(found[1].text, "hello world");
    assert_eq!(found[2].label, "Vigenere - pear");
}

#[test]
fn dictionary_sweep_of_each_keyed_cipher() {
    let keys: Vec<String> = ["apple", "lemon"].iter().map(|s| s.to_string()).collect();
    let secret = col_trans_cipher("hello world!", "lemon", Direction::Encrypt).unwrap();
    let found = dictionary_sweep(&secret, CipherKind::Columnar, &keys);
    assert_eq!(found.len(), 2);
    assert_eq!(found[1].label, "Columnar - lemon");
    assert_eq!(found[1].text.trim_end_matches('*'), "hello world!");
    for (kind, name) in [(CipherKind::Beaufort, "Beaufort"), (CipherKind::Autokey, "Autokey"),
        (CipherKind::SimpleSub, "Simplesub")]
    {
        let found = dictionary_sweep("some secret", kind, &keys);
        assert_eq!(found.len(), 2);
        assert_eq!(found[0].label, format!("{} - apple", name));
    }
    assert_eq!(dictionary_sweep("some secret", CipherKind::Caesar, &keys).len(), 0);
}

#[test]
fn chunks_are_a_thousand_keys() {
    assert_eq!(chunk_count(0), 0);
    assert_eq!(chunk_count(1), 1);
    assert_eq!(chunk_count(1000), 1);
    assert_eq!(chunk_count(1001), 2);
    assert_eq!(chunk_count(3000), 3);
    assert_eq!(chunk_bounds(3000, 0), (0, 1000));
    assert_eq!(chunk_bounds(3000, 2), (2000, 3000));
    assert_eq!(chunk_bounds(3000, 3), (3000, 3000));
    assert_eq!(chunk_bounds(2500, 2), (2000, 2500));
    assert_eq!(chunk_bounds(2500, usize::MAX), (2500, 2500));
    assert_eq!(limited_len(5000, 3000), 3000);
    assert_eq!(limited_len(2000, 3000), 2000);
    assert_eq!(limited_len(2000, 0), 0);
}

fn dictionary(count: usize) -> Vec<String> {
    let mut keys = Vec::new();
    for i in 0..count {
        let a = (b'a' + (i % 26) as u8) as char;
        let b = (b'a' + ((i / 26) % 26) as u8) as char;
        let c = (b'a' + ((i / 676) % 26) as u8) as char;
        keys.push(format!("{}{}{}", c, b, a));
    }
    keys
}

#[test]
fn chunks_in_any_order_give_the_sweep_of_the_whole() {
    let keys = dictionary(3000);
    let secret = vigenere_cipher("the quick brown fox", "bcd", Direction::Encrypt).unwrap();
    let whole = pairs(&dictionary_sweep(&secret, CipherKind::Vigenere, &keys));
    assert_eq!(whole.len(), 3000);
    assert_eq!(chunk_count(keys.len()), 3);
    // one worker after the other, in whatever order the chunks get done
    for order in [[0usize, 1, 2], [2, 1, 0], [1, 2, 0]] {
        let mut parts: Vec<Option<Vec<Decoded>>> = vec![None, None, None];
        for index in order {
            parts[index] = Some(sweep_chunk(&secret, CipherKind::Vigenere, &keys, index));
        }
        let mut merged = Vec::new();
        for part in parts {
            merged.extend(part.unwrap());
        }
        assert_eq!(pairs(&merged), whole);
    }
}

#[test]
fn ranking_does_not_depend_on_the_workers() {
    let keys = dictionary(3000);
    let secret = vigenere_cipher("the quick brown fox", "bcd", Direction::Encrypt).unwrap();
    let score = |d: &Decoded| d.text.chars().filter(|c| c.is_ascii_lowercase()).count() as i64;
    let rank = |found: Vec<Decoded>| -> Vec<(i64, String, String)> {
        let scored: Vec<ScoredCandidate> = found
            .into_iter()
            .map(|d| {
                let s = score(&d);
                with_score(d, s)
            })
            .collect();
        triples(&rank_candidates(scored))
    };
    let alone = rank(dictionary_sweep(&secret, CipherKind::Vigenere, &keys));
    let mut progress = Progress::new();
    let share = share_of(chunk_count(keys.len()) as u32);
    let mut parts: Vec<Vec<Decoded>> = Vec::new();
    for _ in 0..3 {
        parts.push(Vec::new());
    }
    for index in [2usize, 0, 1] {
        parts[index] = sweep_chunk(&secret, CipherKind::Vigenere, &keys, index);
        progress.advance(share);
        assert_eq!(progress.thousandths() < FULL_TURN, true);
    }
    let mut merged = Vec::new();
    for part in parts {
        merged.extend(part);
    }
    assert_eq!(rank(merged), alone);
    assert_eq!(alone.iter().any(|c| c.1 == "the quick brown fox"), true);
    progress.complete();
    assert_eq!(progress.degrees(), 360);
    assert_eq!(progress.is_complete(), true);
}

#[test]
fn sweep_all_goes_cipher_by_cipher() {
    let keys: Vec<String> = ["apple", "lemon"].iter().map(|s| s.to_string()).collect();
    let kinds = vec![CipherKind::Atbash, CipherKind::Vigenere, CipherKind::Base64, CipherKind::Rot13];
    let found = sweep_all("svool", &kinds, &keys);
    let labels: Vec<String> = found.iter().map(|d| d.label.clone()).collect();
    assert_eq!(labels, vec!["Atbash", "Vigenere - apple", "Vigenere - lemon", "ROT13"]);
    assert_eq!(pairs(&sweep_kind("svool", CipherKind::Atbash, &keys)), pairs(&found[0..1]));
    assert_eq!(sweep_all("svool", &Vec::new(), &keys).len(), 0);
}

#[test]
fn sort_is_by_falling_score_and_stable() {
    let sorted = sort_candidates(vec![
        candidate(5, "a", "first five"),
        candidate(9, "b", "nine"),
        candidate(5, "c", "second five"),
        candidate(-3, "d", "minus three"),
        candidate(5, "e", "third five"),
        candidate(9, "f", "second nine"),
        candidate(i64::MAX, "g", "most"),
        candidate(i64::MIN, "h", "least"),
    ]);
    let labels: Vec<String> = sorted.iter().map(|c| c.label.clone()).collect();
    assert_eq!(
        labels,
        vec!["most", "nine", "second nine", "first five", "second five", "third five", "minus three", "least"]
    );
}

#[test]
fn sort_agrees_with_the_standard_stable_sort() {
    let mut seed: u64 = 12345;
    for len in [0usize, 1, 2, 3, 7, 64, 257] {
        let mut given = Vec::new();
        for i in 0..len {
            seed = seed.wrapping_mul(6364136223846793005).wrapping_add(1442695040888963407);
            given.push(((seed >> 60) as i64 - 8, format!("t{}", i)));
        }
        let mut expected = given.clone();
        expected.sort_by(|a, b| b.0.cmp(&a.0));
        let sorted = sort_candidates(given.iter().map(|(s, t)| candidate(*s, t, "")).collect());
        let got: Vec<(i64, String)> = sorted.iter().map(|c| (c.score, c.text.clone())).collect();
        assert_eq!(got, expected);
    }
}

#[test]
fn dedup_keeps_the_first_of_each_text() {
    let kept = dedup_candidates(vec![
        candidate(9, "hello", "one"),
        candidate(8, "world", "two"),
        candidate(7, "hello", "three"),
        candidate(6, "world", "four"),
        candidate(5, "again", "five"),
        candidate(4, "hello", "six"),
    ]);
    assert_eq!(
        triples(&kept),
        vec![
            (9, "hello".to_string(), "one".to_string()),
            (8, "world".to_string(), "two".to_string()),
            (5, "again".to_string(), "five".to_string()),
        ]
    );
    assert_eq!(dedup_candidates(Vec::new()).len(), 0);
}

#[test]
fn rank_sorts_and_then_drops_repeats() {
    let ranked = rank_candidates(vec![
        candidate(1, "low", "a"),
        candidate(7, "same", "b"),
        candidate(9, "same", "c"),
        candidate(7, "other", "d"),
        candidate(9, "top", "e"),
    ]);
    assert_eq!(
        triples(&ranked),
        vec![
            (9, "same".to_string(), "c".to_string()),
            (9, "top".to_string(), "e".to_string()),
            (7, "other".to_string(), "d".to_string()),
            (1, "low".to_string(), "a".to_string()),
        ]
    );
}

#[test]
fn top_is_fifty_at_most() {
    assert_eq!(top_len(0), 0);
    assert_eq!(top_len(49), 49);
    assert_eq!(top_len(50), 50);
    assert_eq!(top_len(51), 50);
    assert_eq!(top_len(usize::MAX), 50);
}

#[test]
fn split_top_parts_the_ranking_at_fifty() {
    for total in [0usize, 1, 49, 50, 51, 120] {
        let ranked: Vec<ScoredCandidate> =
            (0..total).map(|i| candidate(-(i as i64), &format!("t{}", i), "l")).collect();
        let expected = triples(&ranked);
        let (top, rest) = split_top(ranked);
        assert_eq!(top.len(), total.min(50));
        assert_eq!(top.len(), top_len(total));
        assert_eq!(top.len() + rest.len(), total);
        let mut joined = triples(&top);
        joined.extend(triples(&rest));
        assert_eq!(joined, expected);
    }
}

#[test]
fn chunk_share_splits_a_share() {
    assert_eq!(chunk_share(120_000, 0), 0);
    assert_eq!(chunk_share(120_000, 1), 120_000);
    assert_eq!(chunk_share(120_000, 3), 40_000);
    assert_eq!(chunk_share(120_000, 7), 17_142);
    assert_eq!(chunk_share(5, 6), 0);
    assert_eq!(chunk_share(u32::MAX, usize::MAX), 0);
    assert_eq!(chunk_share(u32::MAX, 1), u32::MAX);
}

#[test]
fn progress_grows_and_is_held_back() {
    let mut p = Progress::new();
    assert_eq!(p.thousandths(), 0);
    p.advance(120_000);
    assert_eq!(p.thousandths(), 120_000);
    assert_eq!(p.degrees(), 120);
    p.advance(0);
    assert_eq!(p.thousandths(), 120_000);
    p.advance(300_000);
    assert_eq!(p.thousandths(), HOLD_BACK);
    p.advance(u32::MAX);
    assert_eq!(p.thousandths(), 359_000);
    assert_eq!(p.is_complete(), false);
    p.complete();
    assert_eq!(p.thousandths(), FULL_TURN);
    assert_eq!(p.degrees(), 360);
    p.advance(5);
    assert_eq!(p.degrees(), 360);
    p.reset();
    assert_eq!(p.degrees(), 0);
}

#[test]
fn share_of_splits_the_turn() {
    assert_eq!(share_of(0), 0);
    assert_eq!(share_of(1), 360_000);
    assert_eq!(share_of(3), 120_000);
    assert_eq!(share_of(7), 51_428);
    assert_eq!(share_of(u32::MAX), 0);
}

#[test]
fn run_goes_through_its_phases() {
    let kinds = vec![CipherKind::Caesar, CipherKind::Vigenere, CipherKind::Base64];
    let mut run = Run::new("secret", kinds).unwrap();
    assert_eq!(run.phase(), Phase::Idle);
    assert_eq!(run.parts(), 3);
    assert_eq!(run.action(), Action::Begin);
    run.step(Event::Swept);
    assert_eq!(run.phase(), Phase::Idle);
    run.step(Event::Started);
    assert_eq!(run.action(), Action::SweepBounded(CipherKind::Caesar));
    run.step(Event::Swept);
    assert_eq!(run.action(), Action::SweepDictionary(CipherKind::Vigenere));
    run.step(Event::SweepFailed);
    assert_eq!(run.failures(), &vec![CipherKind::Vigenere]);
    assert_eq!(run.action(), Action::PassOver(CipherKind::Base64));
    run.step(Event::Ranked);
    assert_eq!(run.phase(), Phase::Sweeping);
    run.step(Event::Swept);
    assert_eq!(run.action(), Action::Merge);
    run.step(Event::Merged);
    assert_eq!(run.action(), Action::Rank);
    run.step(Event::Ranked);
    assert_eq!(run.action(), Action::Report);
    run.step(Event::Reported);
    assert_eq!(run.phase(), Phase::Done);
    assert_eq!(run.action(), Action::Stop);
    run.step(Event::Started);
    assert_eq!(run.phase(), Phase::Done);
    assert_eq!(run.failures(), &vec![CipherKind::Vigenere]);
}

#[test]
fn run_called_off_passes_over_what_is_left() {
    let kinds = vec![CipherKind::Caesar, CipherKind::Vigenere, CipherKind::Atbash];
    let mut run = Run::new("secret", kinds).unwrap();
    run.step(Event::Started);
    run.step(Event::SweepFailed);
    assert_eq!(run.was_cancelled(), false);
    run.step(Event::Cancelled);
    assert_eq!(run.was_cancelled(), true);
    assert_eq!(run.action(), Action::Merge);
    assert_eq!(run.failures(), &vec![CipherKind::Caesar]);
    run.step(Event::Merged);
    run.step(Event::Cancelled);
    assert_eq!(run.action(), Action::Rank);
    run.step(Event::Ranked);
    run.step(Event::Reported);
    assert_eq!(run.phase(), Phase::Done);
    let mut idle = Run::new("secret", vec![CipherKind::Caesar]).unwrap();
    idle.step(Event::Cancelled);
    assert_eq!(idle.phase(), Phase::Aggregating);
    assert_eq!(idle.was_cancelled(), true);
}

#[test]
fn run_without_ciphers_goes_straight_to_merging() {
    let mut run = Run::new("secret", Vec::new()).unwrap();
    run.step(Event::Started);
    assert_eq!(run.phase(), Phase::Aggregating);
}

#[test]
fn run_refuses_an_empty_message() {
    assert_eq!(Run::new("", vec![CipherKind::Caesar]).err(), Some(CipherError::EmptyMessage));
}

#[test]
fn report_lines() {
    assert_eq!(format_line("61.25", "  hello world \n", " Caesar "), "(61.25): hello world [Caesar]\n");
    assert_eq!(format_entry("-3.00", "x", "Vigenere - key"), "(-3.00): x [Vigenere - key]\n\n");
    assert_eq!(format_line("", "", ""), "():  []\n");
}
