use cipher_toy::ciphers::{col_trans_cipher, railfence_cipher, CipherError, Direction};

#[test]
fn railfence_classical_example() {
    let enc = railfence_cipher("WEAREDISCOVEREDFLEEATONCE", 3, Direction::Encrypt).unwrap();
    assert_eq!(enc, "WECRLTEERDSOEEFEAOCAIVDEN");
    let dec = railfence_cipher(&enc, 3, Direction::Decrypt).unwrap();
    assert_eq!(dec, "WEAREDISCOVEREDFLEEATONCE");
}

#[test]
fn railfence_two_rails() {
    assert_eq!(railfence_cipher("abcdef", 2, Direction::Encrypt).unwrap(), "acebdf");
    assert_eq!(railfence_cipher("acebdf", 2, Direction::Decrypt).unwrap(), "abcdef");
}

#[test]
fn railfence_as_many_rails_as_characters() {
    assert_eq!(railfence_cipher("abcd", 4, Direction::Encrypt).unwrap(), "abcd");
    assert_eq!(railfence_cipher("abcd", 4, Direction::Decrypt).unwrap(), "abcd");
}

#[test]
fn railfence_keeps_white_space_at_the_ends() {
    let plain = "  hello world \n";
    let enc = railfence_cipher(plain, 4, Direction::Encrypt).unwrap();
    assert_eq!(railfence_cipher(&enc, 4, Direction::Decrypt).unwrap(), plain);
}

#[test]
fn railfence_round_trip_for_every_rail_count() {
    let plain = "The quick brown fox jumps over the lazy dog \u{e9}\u{131}";
    let n = plain.chars().count() as i32;
    for rails in 2..=n {
        let enc = railfence_cipher(plain, rails, Direction::Encrypt).unwrap();
        assert_eq!(enc.chars().count() as i32, n);
        assert_eq!(railfence_cipher(&enc, rails, Direction::Decrypt).unwrap(), plain);
    }
}

#[test]
fn railfence_refuses_rails_out_of_range() {
    for rails in [i32::MIN, -1, 0, 1, 6, 7, i32::MAX] {
        assert_eq!(
            railfence_cipher("hello", rails, Direction::Encrypt),
            Err(CipherError::RailsOutOfRange)
        );
        assert_eq!(
            railfence_cipher("hello", rails, Direction::Decrypt),
            Err(CipherError::RailsOutOfRange)
        );
    }
    assert_eq!(railfence_cipher("", 2, Direction::Encrypt), Err(CipherError::RailsOutOfRange));
    assert_eq!(railfence_cipher("hello", 5, Direction::Encrypt).is_ok(), true);
}

#[test]
fn columnar_classical_example() {
    let enc = col_trans_cipher("WEAREDISCOVEREDFLEEATONCE", "ZEBRAS", Direction::Encrypt).unwrap();
    assert_eq!(enc, "EVLN*ACDT*ESEA*ROFO*DEEC*WIREE");
    let dec = col_trans_cipher(&enc, "ZEBRAS", Direction::Decrypt).unwrap();
    assert_eq!(dec, "WEAREDISCOVEREDFLEEATONCE*****");
}

#[test]
fn columnar_whole_rows_need_no_padding() {
    let enc = col_trans_cipher("abcdef", "cab", Direction::Encrypt).unwrap();
    assert_eq!(enc, "becfad");
    assert_eq!(col_trans_cipher(&enc, "cab", Direction::Decrypt).unwrap(), "abcdef");
}

#[test]
fn columnar_repeated_key_letters_go_left_to_right() {
    // Under "aba" the two columns under `a` are read first, the left one
    // before the right one, and the column under `b` last.
    let enc = col_trans_cipher("abcdef", "aba", Direction::Encrypt).unwrap();
    assert_eq!(enc, "adcfbe");
    assert_eq!(col_trans_cipher(&enc, "aba", Direction::Decrypt).unwrap(), "abcdef");
    let enc = col_trans_cipher("abcdefgh", "zzzz", Direction::Encrypt).unwrap();
    assert_eq!(enc, "aebfcgdh");
    assert_eq!(col_trans_cipher(&enc, "zzzz", Direction::Decrypt).unwrap(), "abcdefgh");
}

#[test]
fn columnar_round_trip_with_repeated_letters() {
    let plain = "the quick brown fox jumps over the lazy dog!";
    for key in ["banana", "mississippi", "aa", "x", "letter"] {
        let enc = col_trans_cipher(plain, key, Direction::Encrypt).unwrap();
        let dec = col_trans_cipher(&enc, key, Direction::Decrypt).unwrap();
        assert_eq!(dec.trim_end_matches('*'), plain);
        assert_eq!(dec.chars().count() % key.chars().count(), 0);
    }
}

#[test]
fn columnar_decrypts_text_that_fills_no_whole_rows() {
    // Seven characters under three columns: three rows, the columns filled
    // in reading order with three, three and one.
    assert_eq!(col_trans_cipher("abcdefg", "abc", Direction::Decrypt).unwrap(), "adgbecf");
}

#[test]
fn columnar_empty_message() {
    assert_eq!(col_trans_cipher("", "key", Direction::Encrypt).unwrap(), "");
    assert_eq!(col_trans_cipher("", "key", Direction::Decrypt).unwrap(), "");
}

#[test]
fn columnar_refuses_empty_key() {
    assert_eq!(col_trans_cipher("hello", "", Direction::Encrypt), Err(CipherError::EmptyKey));
    assert_eq!(col_trans_cipher("hello", "", Direction::Decrypt), Err(CipherError::EmptyKey));
}
