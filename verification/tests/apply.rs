use cipher_toy::actions::{get_info, select_action, SelectedAction};
use cipher_toy::ciphers::keys::{key_or_default, DEFAULT_KEY};
use cipher_toy::ciphers::{apply_cipher, CipherError, CipherKind, Direction};
use cipher_toy::utils::numbers::{decimal_chars, parse_int};

fn parse(s: &str) -> Option<i32> {
    let chars: Vec<char> = s.chars().collect();
    parse_int(&chars)
}

#[test]
fn parse_int_reads_whole_numbers() {
    assert_eq!(parse("0"), Some(0));
    assert_eq!(parse("42"), Some(42));
    assert_eq!(parse("+42"), Some(42));
    assert_eq!(parse("-42"), Some(-42));
    assert_eq!(parse("007"), Some(7));
    assert_eq!(parse("-0"), Some(0));
    assert_eq!(parse("2147483647"), Some(i32::MAX));
    assert_eq!(parse("-2147483648"), Some(i32::MIN));
    assert_eq!(parse("00000000000000000000012"), Some(12));
}

#[test]
fn parse_int_refuses_everything_else() {
    for s in ["", "-", "+", "1 ", " 1", "1.5", "--1", "+-1", "abc", "12a", "2147483648",
        "-2147483649", "99999999999999999999", "\u{663}"]
    {
        assert_eq!(parse(s), None);
    }
}

#[test]
fn parse_int_agrees_with_the_standard_library() {
    for s in ["5", "-17", "+3", "x", "", "2147483647", "2147483648", "-2147483648", "0012"] {
        assert_eq!(parse(s), s.parse::<i32>().ok());
    }
}

#[test]
fn decimal_chars_writes_numbers() {
    for n in [0usize, 1, 9, 10, 11, 99, 100, 12345, 4294967295] {
        let written: String = decimal_chars(n).into_iter().collect();
        assert_eq!(written, n.to_string());
    }
}

#[test]
fn apply_refuses_empty_message() {
    for kind in [CipherKind::Caesar, CipherKind::Atbash, CipherKind::Baconian, CipherKind::Base64] {
        assert_eq!(apply_cipher(kind, "", "3", Direction::Encrypt), Err(CipherError::EmptyMessage));
        assert_eq!(apply_cipher(kind, "", "3", Direction::Decrypt), Err(CipherError::EmptyMessage));
    }
}

#[test]
fn apply_reads_the_shift_key() {
    assert_eq!(apply_cipher(CipherKind::Caesar, "hello world", "5", Direction::Encrypt).unwrap(), "mjqqt |twqi");
    assert_eq!(apply_cipher(CipherKind::Caesar, "hello world", "  5\n", Direction::Encrypt).unwrap(), "mjqqt |twqi");
    assert_eq!(apply_cipher(CipherKind::Caesar, "mjqqt |twqi", "5", Direction::Decrypt).unwrap(), "hello world");
    assert_eq!(
        apply_cipher(CipherKind::Caesar, "hello", "five", Direction::Encrypt),
        Err(CipherError::KeyNotANumber)
    );
    assert_eq!(
        apply_cipher(CipherKind::Caesar, "hello", "", Direction::Encrypt),
        Err(CipherError::KeyNotANumber)
    );
}

#[test]
fn apply_reads_the_affine_key() {
    assert_eq!(apply_cipher(CipherKind::Affine, "affine cipher", "5,8", Direction::Encrypt).unwrap(), "ihhwvc swfrcp");
    assert_eq!(apply_cipher(CipherKind::Affine, "affine cipher", "5,8,99", Direction::Encrypt).unwrap(), "ihhwvc swfrcp");
    assert_eq!(apply_cipher(CipherKind::Affine, "ihhwvc swfrcp", "5,8", Direction::Decrypt).unwrap(), "affine cipher");
    for key in ["5", "5;8", "5, 8", ",8", "5,", "a,b", ""] {
        assert_eq!(
            apply_cipher(CipherKind::Affine, "hello", key, Direction::Encrypt),
            Err(CipherError::KeyNotANumber)
        );
    }
    assert_eq!(
        apply_cipher(CipherKind::Affine, "hello", "13,8", Direction::Encrypt),
        Err(CipherError::MultiplierNotCoprime)
    );
}

#[test]
fn apply_reads_the_rail_key() {
    assert_eq!(
        apply_cipher(CipherKind::Railfence, "WEAREDISCOVEREDFLEEATONCE", "3", Direction::Encrypt).unwrap(),
        "WECRLTEERDSOEEFEAOCAIVDEN"
    );
    assert_eq!(
        apply_cipher(CipherKind::Railfence, "hello", " 3", Direction::Encrypt),
        Err(CipherError::KeyNotANumber)
    );
    assert_eq!(
        apply_cipher(CipherKind::Railfence, "hello", "9", Direction::Encrypt),
        Err(CipherError::RailsOutOfRange)
    );
}

#[test]
fn apply_reaches_every_cipher() {
    let e = Direction::Encrypt;
    assert_eq!(apply_cipher(CipherKind::Vigenere, "hello", "abc", e).unwrap(), "hfnlp");
    assert_eq!(apply_cipher(CipherKind::Beaufort, "hello", "abc", e).unwrap(), "2}468");
    assert_eq!(apply_cipher(CipherKind::Autokey, "attack", "key", e).unwrap(), "kx=av~");
    assert_eq!(apply_cipher(CipherKind::Atbash, "abc", "", e).unwrap(), "zyx");
    assert_eq!(apply_cipher(CipherKind::Rot13, "abc", "", e).unwrap(), "nop");
    assert_eq!(apply_cipher(CipherKind::Polybius, "hello", "", e).unwrap(), "mjqqt");
    assert_eq!(apply_cipher(CipherKind::Columnar, "abcdef", "cab", e).unwrap(), "becfad");
    assert_eq!(apply_cipher(CipherKind::Base64, "Man", "", e).unwrap(), "TWFu");
    assert_eq!(apply_cipher(CipherKind::Baconian, "00007", "", Direction::Decrypt).unwrap(), "b");
    let enc = apply_cipher(CipherKind::Baconian, "b", "", e).unwrap();
    assert_eq!(apply_cipher(CipherKind::Baconian, &enc, "", Direction::Decrypt).unwrap(), "b");
    let sub = apply_cipher(CipherKind::SimpleSub, "hello", "seed", e).unwrap();
    assert_eq!(apply_cipher(CipherKind::SimpleSub, &sub, "seed", Direction::Decrypt).unwrap(), "hello");
    assert_eq!(
        apply_cipher(CipherKind::Vigenere, "hello", "", e),
        Err(CipherError::EmptyKey)
    );
}

#[test]
fn round_trip_of_every_cipher_over_printable_ascii() {
    let plain: String = (32u8..127).map(|b| b as char).collect();
    assert_eq!(plain.chars().count() % 5, 0);
    let cases = [
        (CipherKind::Caesar, "17"),
        (CipherKind::Vigenere, "lemon"),
        (CipherKind::Beaufort, "lemon"),
        (CipherKind::Autokey, "lemon"),
        (CipherKind::Atbash, ""),
        (CipherKind::Rot13, ""),
        (CipherKind::Affine, "11,4"),
        (CipherKind::Railfence, "7"),
        (CipherKind::Polybius, ""),
        (CipherKind::SimpleSub, "lemon"),
        (CipherKind::Columnar, "lemon"),
        (CipherKind::Base64, ""),
    ];
    for (kind, key) in cases {
        let enc = apply_cipher(kind, &plain, key, Direction::Encrypt).unwrap();
        assert_eq!(apply_cipher(kind, &enc, key, Direction::Decrypt).unwrap(), plain);
    }
}

#[test]
fn upper_case_survives_every_substitution() {
    for (kind, key) in [(CipherKind::Polybius, ""), (CipherKind::SimpleSub, "seed")] {
        let enc = apply_cipher(kind, "Hi There", key, Direction::Encrypt).unwrap();
        assert_ne!(enc, "Hi There");
        assert_eq!(apply_cipher(kind, &enc, key, Direction::Decrypt).unwrap(), "Hi There");
    }
}

#[test]
fn padding_stays_after_the_columnar_round_trip() {
    let enc = apply_cipher(CipherKind::Columnar, "abcd", "abc", Direction::Encrypt).unwrap();
    assert_eq!(apply_cipher(CipherKind::Columnar, &enc, "abc", Direction::Decrypt).unwrap(), "abcd**");
}

#[test]
fn key_or_default_names_the_fall_back() {
    assert_eq!(DEFAULT_KEY, "key");
    assert_eq!(key_or_default("lemon"), ("lemon", false));
    assert_eq!(key_or_default(""), ("key", true));
    assert_eq!(key_or_default("cl\u{e9}"), ("key", true));
}

#[test]
fn select_action_reads_names() {
    assert_eq!(select_action("Caesar"), Some(SelectedAction::Cipher(CipherKind::Caesar)));
    assert_eq!(select_action("RailFence"), Some(SelectedAction::Cipher(CipherKind::Railfence)));
    assert_eq!(select_action("SimpleSub"), Some(SelectedAction::Cipher(CipherKind::SimpleSub)));
    assert_eq!(select_action("Baconian Cipher"), Some(SelectedAction::Cipher(CipherKind::Baconian)));
    assert_eq!(select_action("Rot13"), Some(SelectedAction::Cipher(CipherKind::Rot13)));
    assert_eq!(select_action("Base64"), Some(SelectedAction::Cipher(CipherKind::Base64)));
    assert_eq!(select_action("Bruteforce"), Some(SelectedAction::Bruteforce));
    assert_eq!(select_action("SCORE"), Some(SelectedAction::Score));
    assert_eq!(select_action("the caesar and the vigenere"), Some(SelectedAction::Cipher(CipherKind::Caesar)));
    assert_eq!(select_action(""), None);
    assert_eq!(select_action("enigma"), None);
}

#[test]
fn get_info_gives_a_few_words() {
    assert_eq!(
        get_info("Caesar"),
        "A caesar cipher is a common monoalphabetic substitution cipher that shifts letters by a key called the shift value."
    );
    assert_eq!(
        get_info("score"),
        "Use this to score a string in terms of how likely it is to be english."
    );
    assert_eq!(get_info("nothing"), "Error: Nothing was selected to retrieve information about!");
    for name in ["Vigenere", "Beaufort", "Atbash", "Rot13", "Affine", "Baconian", "RailFence",
        "Polybius", "SimpleSub", "Base64", "Autokey", "Columnar", "Bruteforce"]
    {
        assert_eq!(get_info(name).starts_with("Error"), false);
    }
}
