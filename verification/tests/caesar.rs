use cipher_toy::ciphers::{caesar_cipher, Direction};
use cipher_toy::utils::shift_char;

#[test]
fn shift_char_wraps_round_the_band() {
    assert_eq!(shift_char('0', 1), '1');
    assert_eq!(shift_char('~', 1), '0');
    assert_eq!(shift_char('0', -1), '~');
    assert_eq!(shift_char('a', 79), 'a');
    assert_eq!(shift_char('a', -79), 'a');
}

#[test]
fn shift_char_leaves_outside_band_alone() {
    assert_eq!(shift_char(' ', 5), ' ');
    assert_eq!(shift_char('\n', 5), '\n');
    assert_eq!(shift_char('/', 5), '/');
    assert_eq!(shift_char('\u{7f}', 5), '\u{7f}');
    assert_eq!(shift_char('\u{131}', 5), '\u{131}');
}

#[test]
fn caesar_shift_five() {
    let enc = caesar_cipher("hello world", 5, Direction::Encrypt);
    assert_eq!(enc, "mjqqt |twqi");
    assert_eq!(caesar_cipher(&enc, 5, Direction::Decrypt), "hello world");
}
