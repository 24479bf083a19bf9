use cipher_toy::ciphers::simplesub::{shuffled_alphabet, simplesub_with_alphabet};
use cipher_toy::ciphers::{
    affine_cipher, atbash_cipher, polybius_cipher, rot13_cipher, simplesub_cipher, CipherError,
    Direction,
};

#[test]
fn atbash_mirrors_letters_and_digits() {
    assert_eq!(atbash_cipher("Hello, World 0129"), "Svool, Dliow 9870");
    assert_eq!(atbash_cipher("az AZ 09"), "za ZA 90");
}

#[test]
fn atbash_twice_is_identity() {
    let m = "The Quick Brown Fox 1234567890 ~!@ \u{e9}\u{131}";
    assert_eq!(atbash_cipher(&atbash_cipher(m)), m);
}

#[test]
fn atbash_leaves_non_ascii_alone() {
    assert_eq!(atbash_cipher("\u{c9}\u{e9}\u{131}"), "\u{c9}\u{e9}\u{131}");
}

#[test]
fn rot13_rotates_letters() {
    assert_eq!(rot13_cipher("Hello, World!"), "Uryyb, Jbeyq!");
    assert_eq!(rot13_cipher("abcxyz ABCXYZ 123"), "nopklm NOPKLM 123");
}

#[test]
fn rot13_twice_is_identity() {
    let m = "The Quick Brown Fox 1234567890 ~!@ \u{e9}";
    assert_eq!(rot13_cipher(&rot13_cipher(m)), m);
}

#[test]
fn affine_classic_example() {
    let enc = affine_cipher("affine cipher", 5, 8, Direction::Encrypt).unwrap();
    assert_eq!(enc, "ihhwvc swfrcp");
    let dec = affine_cipher(&enc, 5, 8, Direction::Decrypt).unwrap();
    assert_eq!(dec, "affine cipher");
}

#[test]
fn affine_keeps_case_and_other_characters() {
    let enc = affine_cipher("Hello, World! 42", 3, 7, Direction::Encrypt).unwrap();
    assert_eq!(enc, "Ctoox, Vxgoq! 42");
    assert_eq!(affine_cipher(&enc, 3, 7, Direction::Decrypt).unwrap(), "Hello, World! 42");
}

#[test]
fn affine_takes_numbers_round_the_alphabet() {
    let plain = "Attack at Dawn";
    let enc = affine_cipher(plain, 5, 8, Direction::Encrypt).unwrap();
    assert_eq!(affine_cipher(plain, 31, -18, Direction::Encrypt).unwrap(), enc);
    assert_eq!(affine_cipher(plain, -21, 34, Direction::Encrypt).unwrap(), enc);
    assert_eq!(affine_cipher(&enc, -21, 34, Direction::Decrypt).unwrap(), plain);
    assert_eq!(affine_cipher(&enc, i32::MAX, i32::MIN, Direction::Decrypt).is_ok(), true);
}

#[test]
fn affine_refuses_multiplier_not_coprime() {
    for a in [2, 4, 6, 8, 10, 12, 13, 14, 16, 18, 20, 22, 24, 26, 0, -2, -13, 39] {
        assert_eq!(
            affine_cipher("hello", a, 3, Direction::Encrypt),
            Err(CipherError::MultiplierNotCoprime)
        );
        assert_eq!(
            affine_cipher("hello", a, 3, Direction::Decrypt),
            Err(CipherError::MultiplierNotCoprime)
        );
    }
}

#[test]
fn affine_round_trip_for_every_valid_multiplier() {
    let plain = "The quick brown fox jumps over the lazy dog";
    for a in [1, 3, 5, 7, 9, 11, 15, 17, 19, 21, 23, 25] {
        for b in 0..26 {
            let enc = affine_cipher(plain, a, b, Direction::Encrypt).unwrap();
            assert_eq!(affine_cipher(&enc, a, b, Direction::Decrypt).unwrap(), plain);
        }
    }
}

#[test]
fn polybius_moves_one_row_down() {
    assert_eq!(polybius_cipher("hello", Direction::Encrypt), "mjqqt");
    assert_eq!(polybius_cipher("uvwxyz", Direction::Encrypt), "abcdez");
    assert_eq!(polybius_cipher("mjqqt", Direction::Decrypt), "hello");
    assert_eq!(polybius_cipher("abcde", Direction::Decrypt), "uvwxy");
}

#[test]
fn polybius_keeps_the_case() {
    assert_eq!(polybius_cipher("Hello, World!", Direction::Encrypt), "Mjqqt, Ctwqi!");
    assert_eq!(polybius_cipher("Mjqqt, Ctwqi!", Direction::Decrypt), "Hello, World!");
    assert_eq!(polybius_cipher("UVWXYZ Zz", Direction::Encrypt), "ABCDEZ Zz");
    assert_eq!(polybius_cipher("ABCDEZ Zz", Direction::Decrypt), "UVWXYZ Zz");
}

#[test]
fn polybius_round_trip_over_printable_ascii() {
    let plain: String = (32u8..127).map(|b| b as char).collect();
    let enc = polybius_cipher(&plain, Direction::Encrypt);
    assert_ne!(enc, plain);
    assert_eq!(polybius_cipher(&enc, Direction::Decrypt), plain);
    assert_eq!(polybius_cipher("Hi", Direction::Decrypt), "Cd");
    assert_eq!(polybius_cipher(&polybius_cipher("Hi", Direction::Encrypt), Direction::Decrypt), "Hi");
}

#[test]
fn simplesub_round_trip() {
    let plain = "The Quick Brown Fox jumps over the LAZY dog, 42 times!";
    let enc = simplesub_cipher(plain, "correct horse", Direction::Encrypt);
    assert_ne!(enc, plain);
    assert_eq!(simplesub_cipher(&enc, "correct horse", Direction::Decrypt), plain);
}

#[test]
fn simplesub_round_trip_over_printable_ascii() {
    let plain: String = (32u8..127).map(|b| b as char).collect();
    for seed in ["", "a", "correct horse", "\u{e9}"] {
        let enc = simplesub_cipher(&plain, seed, Direction::Encrypt);
        assert_eq!(simplesub_cipher(&enc, seed, Direction::Decrypt), plain);
    }
    let enc = simplesub_cipher("Hi", "seed", Direction::Encrypt);
    assert_eq!(enc.chars().next().unwrap().is_ascii_uppercase(), true);
    assert_eq!(simplesub_cipher(&enc, "seed", Direction::Decrypt), "Hi");
}

#[test]
fn simplesub_same_seed_same_alphabet() {
    let a = shuffled_alphabet("stripy zebra");
    let b = shuffled_alphabet("stripy zebra");
    assert_eq!(a, b);
    let mut sorted = a.clone();
    sorted.sort();
    let plain: Vec<char> = ('a'..='z').collect();
    assert_eq!(sorted, plain);
    assert_ne!(a, plain);
}

#[test]
fn simplesub_different_seeds_differ() {
    assert_ne!(shuffled_alphabet("one"), shuffled_alphabet("two"));
}

#[test]
fn simplesub_with_given_alphabet() {
    let letters: Vec<char> = "zyxwvutsrqponmlkjihgfedcba".chars().collect();
    assert_eq!(simplesub_with_alphabet("Hello, World!", &letters, Direction::Encrypt), "Svool, Dliow!");
    assert_eq!(simplesub_with_alphabet("Svool, Dliow!", &letters, Direction::Decrypt), "Hello, World!");
    let rotated: Vec<char> = "bcdefghijklmnopqrstuvwxyza".chars().collect();
    assert_eq!(simplesub_with_alphabet("abcz", &rotated, Direction::Encrypt), "bcda");
    assert_eq!(simplesub_with_alphabet("bcda", &rotated, Direction::Decrypt), "abcz");
    assert_eq!(simplesub_with_alphabet("AbcZ 9\u{e9}", &rotated, Direction::Encrypt), "BcdA 9\u{e9}");
    assert_eq!(simplesub_with_alphabet("BcdA 9\u{e9}", &rotated, Direction::Decrypt), "AbcZ 9\u{e9}");
}
