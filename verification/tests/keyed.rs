use cipher_toy::ciphers::{
    autokey_cipher, beaufort_cipher, caesar_cipher, vigenere_cipher, CipherError, Direction,
};

#[test]
fn caesar_round_trip_over_printable_ascii() {
    let plain: String = (32u8..127).map(|b| b as char).collect();
    for shift in [0, 1, 5, 78, 79, 80, -1, -200, i32::MAX, i32::MIN] {
        let enc = caesar_cipher(&plain, shift, Direction::Encrypt);
        assert_eq!(caesar_cipher(&enc, shift, Direction::Decrypt), plain);
    }
}

#[test]
fn caesar_extreme_shifts() {
    assert_eq!(caesar_cipher("0", i32::MIN, Direction::Decrypt), "I");
    assert_eq!(caesar_cipher("I", i32::MIN, Direction::Encrypt), "0");
}

#[test]
fn vigenere_known_values() {
    assert_eq!(vigenere_cipher("hello", "abc", Direction::Encrypt).unwrap(), "hfnlp");
    assert_eq!(vigenere_cipher("hfnlp", "abc", Direction::Decrypt).unwrap(), "hello");
    assert_eq!(vigenere_cipher("hello", "key", Direction::Encrypt).unwrap(), "ri5vs");
    assert_eq!(vigenere_cipher("ri5vs", "key", Direction::Decrypt).unwrap(), "hello");
}

#[test]
fn vigenere_key_moves_on_over_every_character() {
    assert_eq!(vigenere_cipher("a a a", "ab", Direction::Encrypt).unwrap(), "a a a");
    assert_eq!(vigenere_cipher("aaaa", "ab", Direction::Encrypt).unwrap(), "abab");
}

#[test]
fn vigenere_refuses_bad_keys() {
    assert_eq!(vigenere_cipher("hello", "", Direction::Encrypt), Err(CipherError::EmptyKey));
    assert_eq!(vigenere_cipher("hello", "", Direction::Decrypt), Err(CipherError::EmptyKey));
    assert_eq!(
        vigenere_cipher("hello", "cl\u{e9}", Direction::Encrypt),
        Err(CipherError::NonAsciiKey)
    );
}

#[test]
fn vigenere_round_trip() {
    let plain = "The quick brown fox, 1234567890 times! ~";
    for key in ["a", "key", "Lemon Squash 99", "~~~", "0"] {
        let enc = vigenere_cipher(plain, key, Direction::Encrypt).unwrap();
        assert_eq!(vigenere_cipher(&enc, key, Direction::Decrypt).unwrap(), plain);
    }
}

#[test]
fn beaufort_is_vigenere_under_mirrored_key() {
    assert_eq!(beaufort_cipher("hello", "abc", Direction::Encrypt).unwrap(), "2}468");
    assert_eq!(
        beaufort_cipher("hello", "abc", Direction::Encrypt),
        vigenere_cipher("hello", "zyx", Direction::Encrypt)
    );
    assert_eq!(beaufort_cipher("2}468", "abc", Direction::Decrypt).unwrap(), "hello");
}

#[test]
fn beaufort_refuses_bad_keys() {
    assert_eq!(beaufort_cipher("hello", "", Direction::Encrypt), Err(CipherError::EmptyKey));
    assert_eq!(
        beaufort_cipher("hello", "\u{131}", Direction::Decrypt),
        Err(CipherError::NonAsciiKey)
    );
}

#[test]
fn autokey_known_values() {
    // The running key is "key" and then "att": shifts 10, 4, 24, 0, 19, 19.
    assert_eq!(autokey_cipher("attack", "key", Direction::Encrypt).unwrap(), "kx=av~");
    assert_eq!(autokey_cipher("kx=av~", "key", Direction::Decrypt).unwrap(), "attack");
}

#[test]
fn autokey_passes_over_places_without_a_key_letter() {
    // key "1": no letter, so the first character stays; then the running key
    // is the plain text, in lower case.
    assert_eq!(autokey_cipher("Bb b", "1", Direction::Encrypt).unwrap(), "Bc b");
    assert_eq!(autokey_cipher("Bc b", "1", Direction::Decrypt).unwrap(), "Bb b");
}

#[test]
fn autokey_round_trip() {
    let plain = "Meet me at the bridge at 10:45, bring \u{e9}clairs!";
    for key in ["k", "key", "QUEENLY", "a1b2", "longer than the message itself is, by far and away"] {
        let enc = autokey_cipher(plain, key, Direction::Encrypt).unwrap();
        assert_eq!(autokey_cipher(&enc, key, Direction::Decrypt).unwrap(), plain);
    }
}

#[test]
fn autokey_refuses_bad_keys() {
    assert_eq!(autokey_cipher("hello", "", Direction::Encrypt), Err(CipherError::EmptyKey));
    assert_eq!(
        autokey_cipher("hello", "na\u{ef}ve", Direction::Decrypt),
        Err(CipherError::NonAsciiKey)
    );
}
