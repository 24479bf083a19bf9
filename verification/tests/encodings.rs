use cipher_toy::ciphers::{base64_cipher, baconian_cipher, CipherError, Direction};

#[test]
fn base64_known_values() {
    assert_eq!(base64_cipher("", Direction::Encrypt).unwrap(), "");
    assert_eq!(base64_cipher("M", Direction::Encrypt).unwrap(), "TQ==");
    assert_eq!(base64_cipher("Ma", Direction::Encrypt).unwrap(), "TWE=");
    assert_eq!(base64_cipher("Man", Direction::Encrypt).unwrap(), "TWFu");
    assert_eq!(base64_cipher("Hello", Direction::Encrypt).unwrap(), "SGVsbG8=");
    assert_eq!(base64_cipher("hello world", Direction::Encrypt).unwrap(), "aGVsbG8gd29ybGQ=");
    assert_eq!(base64_cipher("\u{fb}\u{ff}\u{fe}", Direction::Encrypt).unwrap(), "+//+");
}

#[test]
fn base64_decodes_known_values() {
    assert_eq!(base64_cipher("", Direction::Decrypt).unwrap(), "");
    assert_eq!(base64_cipher("TQ==", Direction::Decrypt).unwrap(), "M");
    assert_eq!(base64_cipher("TWE=", Direction::Decrypt).unwrap(), "Ma");
    assert_eq!(base64_cipher("TWFu", Direction::Decrypt).unwrap(), "Man");
    assert_eq!(base64_cipher("SGVsbG8=", Direction::Decrypt).unwrap(), "Hello");
    assert_eq!(base64_cipher("+//+", Direction::Decrypt).unwrap(), "\u{fb}\u{ff}\u{fe}");
}

#[test]
fn base64_decoding_is_lenient_about_padding() {
    assert_eq!(base64_cipher("SGVsbG8", Direction::Decrypt).unwrap(), "Hello");
    assert_eq!(base64_cipher("SG=Vs=bG8", Direction::Decrypt).unwrap(), "Hello");
    assert_eq!(base64_cipher("T", Direction::Decrypt).unwrap(), "");
    assert_eq!(base64_cipher("====", Direction::Decrypt).unwrap(), "");
}

#[test]
fn base64_refuses_characters_outside_the_alphabet() {
    for text in ["SGVs bG8=", "@@@@", "TWFu\n", "TQ==!", "\u{e9}"] {
        assert_eq!(
            base64_cipher(text, Direction::Decrypt),
            Err(CipherError::MalformedCiphertext)
        );
    }
}

#[test]
fn base64_round_trip_over_printable_ascii() {
    let plain: String = (32u8..127).map(|b| b as char).collect();
    for len in 0..plain.len() {
        let m = &plain[..len];
        let enc = base64_cipher(m, Direction::Encrypt).unwrap();
        assert_eq!(enc.len() % 4, 0);
        assert_eq!(base64_cipher(&enc, Direction::Decrypt).unwrap(), m);
    }
}

#[test]
fn base64_takes_the_low_byte_of_a_character() {
    // U+0141 has the low byte 0x41, that of `A`.
    assert_eq!(
        base64_cipher("\u{141}", Direction::Encrypt),
        base64_cipher("A", Direction::Encrypt)
    );
}

#[test]
fn baconian_decodes_by_threshold() {
    assert_eq!(baconian_cipher("00000", Direction::Decrypt).unwrap(), "a");
    assert_eq!(baconian_cipher("12347", Direction::Decrypt).unwrap(), "b");
    assert_eq!(baconian_cipher("66666", Direction::Decrypt).unwrap(), "a");
    assert_eq!(baconian_cipher("99009", Direction::Decrypt).unwrap(), "z");
    assert_eq!(baconian_cipher("00888 00900 07078 07078 07890", Direction::Decrypt).unwrap(), "h e l l o");
}

#[test]
fn baconian_decoding_edge_cases() {
    // white space inside a group is passed on at once
    assert_eq!(baconian_cipher("00 007", Direction::Decrypt).unwrap(), " b");
    // digits left over are dropped
    assert_eq!(baconian_cipher("000070000", Direction::Decrypt).unwrap(), "b");
    // numbers past the alphabet give the characters after `z`
    assert_eq!(baconian_cipher("99090", Direction::Decrypt).unwrap(), "{");
    assert_eq!(baconian_cipher("99999", Direction::Decrypt).unwrap(), "\u{80}");
    assert_eq!(baconian_cipher("", Direction::Decrypt).unwrap(), "");
}

#[test]
fn baconian_refuses_anything_but_digits_and_white_space() {
    for text in ["0000a", "hello", "00000!", "00000\u{a0}00000", "-1"] {
        assert_eq!(
            baconian_cipher(text, Direction::Decrypt),
            Err(CipherError::MalformedCiphertext)
        );
    }
}

#[test]
fn baconian_encoding_decodes_to_the_letters() {
    let plain = "The quick brown fox\tjumps over\nthe lazy dog";
    for _ in 0..20 {
        let enc = baconian_cipher(plain, Direction::Encrypt).unwrap();
        assert_eq!(enc.chars().count(), 35 * 5 + 8);
        assert_eq!(enc.chars().all(|c| c.is_ascii_digit() || c.is_ascii_whitespace()), true);
        let dec = baconian_cipher(&enc, Direction::Decrypt).unwrap();
        assert_eq!(dec, plain.to_lowercase());
    }
}

#[test]
fn baconian_encoding_draws_each_digit_from_its_range() {
    // `z` is 25, which is 11001 in five bits.
    for _ in 0..50 {
        let enc = baconian_cipher("z", Direction::Encrypt).unwrap();
        let digits: Vec<u32> = enc.chars().map(|c| c.to_digit(10).unwrap()).collect();
        assert_eq!(digits.len(), 5);
        assert_eq!(digits[0] >= 7, true);
        assert_eq!(digits[1] >= 7, true);
        assert_eq!(digits[2] <= 6, true);
        assert_eq!(digits[3] <= 6, true);
        assert_eq!(digits[4] >= 7, true);
    }
}

#[test]
fn baconian_encoding_varies() {
    let plain = "the quick brown fox jumps over the lazy dog";
    let first = baconian_cipher(plain, Direction::Encrypt).unwrap();
    let mut differs = false;
    for _ in 0..10 {
        if baconian_cipher(plain, Direction::Encrypt).unwrap() != first {
            differs = true;
        }
    }
    assert_eq!(differs, true);
}

#[test]
fn baconian_encoding_passes_other_characters_on() {
    let enc = baconian_cipher("a-b", Direction::Encrypt).unwrap();
    assert_eq!(enc.chars().count(), 11);
    assert_eq!(enc.chars().nth(5), Some('-'));
}
