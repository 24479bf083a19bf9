//! What a caller can ask for by name: one of the ciphers, a brute-force
//! search, or the score of a text; and a few words about each.
//!
//! A name is read in lower case and stands for the first of the actions,
//! in the order below, whose key word it holds anywhere.

use vstd::prelude::*;
use crate::ciphers::CipherKind;
use crate::text::{chars_of, contains_chars, contains_seq, lower_chars, lower_seq};

verus! {

/// What a caller can ask for.
#[derive(Clone, Copy, Debug, PartialEq, Eq, Structural)]
pub enum SelectedAction {
    /// Apply a cipher.
    Cipher(CipherKind),
    /// Score a text for its likeness to English.
    Score,
    /// Search the keys of some ciphers.
    Bruteforce,
}

pub const CAESAR_INFO: &'static str =
    "A caesar cipher is a common monoalphabetic substitution cipher that shifts letters by a key called the shift value.";

pub const VIGENERE_INFO: &'static str =
    "A vigenere cipher is a common polyalphabetic substitution cipher that shifts letters by the values of a repeating key.";

pub const BEAUFORT_INFO: &'static str =
    "A beaufort cipher is a similar to a vigenere cipher, but the plaintext char is subtracted from the key instead of added.";

pub const ATBASH_INFO: &'static str =
    "An Atbash cipher is a common monoalphabetic substitution cipher that reverses the characters in a message.";

pub const ROT13_INFO: &'static str =
    "An ROT13 cipher is a simple substitution cipher that rotates each character by 13 spaces, as if choosing the other side of an alphabet wheel.";

pub const AFFINE_INFO: &'static str =
    "An affine cipher is a monoalphabetic substitution cipher that performs a mathematical operation, *a + b on a character, given the key [a,b]. a must be coprime to 26 (eg 3,5,7,9,11,15...).";

pub const BACONIAN_INFO: &'static str =
    "A baconian cipher is a monoalphabetic substitution cipher that encodes the message in a sort of binary using 'a's and 'b's, fonts or cases, or in this case, randomized digits where digits 6 and below are 0's and 7 and above are 1's. Each character is stored in 5 bits representing the ASCII.\n\nNote: due to the nature of this cipher, numbers in the secret message will not come through the encryption and decryption process unharmed.";

pub const RAILFENCE_INFO: &'static str =
    "A Railfence cipher is a transposition cipher that shuffles each character according to a number of rails that act as the key.";

pub const BRUTEFORCE_INFO: &'static str =
    "This will attempt a bruteforce on a string encoded using one of the available cipher types.";

pub const SCORE_INFO: &'static str =
    "Use this to score a string in terms of how likely it is to be english.";

pub const POLYBIUS_INFO: &'static str =
    "A Polybius cipher is a monoalphabetic substitution cipher that shifts values by one row according to a 5x5 alphabetic table.";

pub const SIMPLESUB_INFO: &'static str =
    "A simple subsitution cipher is a common monoalphabetic substitution cipher that shifts letters by random values seeded by a given key password.";

pub const BASE64_INFO: &'static str =
    "Base 64 encodes a string in base 64 (6-bit strings) and mapped to a set of 64 characters. It is not secure, but can be used as a primitive means of obscuring data to the untrained eye.";

pub const AUTOKEY_INFO: &'static str =
    "The autokey cipher is polyalphabetic substitution cipher that shifts values according to both the secret key and the plaintext, making the distribution of characters more similar than a vigenere cipher.";

pub const COLUMNAR_INFO: &'static str =
    "A Columnar-transpositional cipher is a transpositional cipher that involves transposing laying characters out on a table based on a key then shifting the column order to be based alphabetically on the key. The columns are then listed to get the ciphertext. \n\nNote: Where a key holds a letter more than once, the columns under that letter are read from left to right.";

pub const NOTHING_INFO: &'static str =
    "Error: Nothing was selected to retrieve information about!";

/// The action that `name` stands for, if any.
pub open spec fn selected_spec(name: Seq<char>) -> Option<SelectedAction> {
    let low = lower_seq(name);
    if contains_seq(low, "caesar"@) {
        Some(SelectedAction::Cipher(CipherKind::Caesar))
    } else if contains_seq(low, "vigenere"@) {
        Some(SelectedAction::Cipher(CipherKind::Vigenere))
    } else if contains_seq(low, "beaufort"@) {
        Some(SelectedAction::Cipher(CipherKind::Beaufort))
    } else if contains_seq(low, "atbash"@) {
        Some(SelectedAction::Cipher(CipherKind::Atbash))
    } else if contains_seq(low, "rot13"@) {
        Some(SelectedAction::Cipher(CipherKind::Rot13))
    } else if contains_seq(low, "affine"@) {
        Some(SelectedAction::Cipher(CipherKind::Affine))
    } else if contains_seq(low, "bacon"@) {
        Some(SelectedAction::Cipher(CipherKind::Baconian))
    } else if contains_seq(low, "railfence"@) {
        Some(SelectedAction::Cipher(CipherKind::Railfence))
    } else if contains_seq(low, "base64"@) {
        Some(SelectedAction::Cipher(CipherKind::Base64))
    } else if contains_seq(low, "autokey"@) {
        Some(SelectedAction::Cipher(CipherKind::Autokey))
    } else if contains_seq(low, "polybius"@) {
        Some(SelectedAction::Cipher(CipherKind::Polybius))
    } else if contains_seq(low, "simplesub"@) {
        Some(SelectedAction::Cipher(CipherKind::SimpleSub))
    } else if contains_seq(low, "columnar"@) {
        Some(SelectedAction::Cipher(CipherKind::Columnar))
    } else if contains_seq(low, "score"@) {
        Some(SelectedAction::Score)
    } else if contains_seq(low, "bruteforce"@) {
        Some(SelectedAction::Bruteforce)
    } else {
        None
    }
}

/// A few words about an action, or about there being none.
pub open spec fn info_spec(action: Option<SelectedAction>) -> Seq<char> {
    match action {
        Some(SelectedAction::Cipher(kind)) => match kind {
            CipherKind::Caesar => CAESAR_INFO@,
            CipherKind::Vigenere => VIGENERE_INFO@,
            CipherKind::Beaufort => BEAUFORT_INFO@,
            CipherKind::Autokey => AUTOKEY_INFO@,
            CipherKind::Atbash => ATBASH_INFO@,
            CipherKind::Rot13 => ROT13_INFO@,
            CipherKind::Affine => AFFINE_INFO@,
            CipherKind::Baconian => BACONIAN_INFO@,
            CipherKind::Railfence => RAILFENCE_INFO@,
            CipherKind::Polybius => POLYBIUS_INFO@,
            CipherKind::SimpleSub => SIMPLESUB_INFO@,
            CipherKind::Columnar => COLUMNAR_INFO@,
            CipherKind::Base64 => BASE64_INFO@,
        },
        Some(SelectedAction::Score) => SCORE_INFO@,
        Some(SelectedAction::Bruteforce) => BRUTEFORCE_INFO@,
        None => NOTHING_INFO@,
    }
}

/// Whether `word` stands somewhere in `name`.
fn holds_word(name: &Vec<char>, word: &str) -> (r: bool)
    ensures
        r == contains_seq(name@, word@),
{
    let word_chars = chars_of(word);
    contains_chars(name, &word_chars)
}

/// Reads the action that `name` stands for.
pub fn select_action(name: &str) -> (action: Option<SelectedAction>)
    ensures
        action == selected_spec(name@),
{
    let low = lower_chars(&chars_of(name));
    if holds_word(&low, "caesar") {
        Some(SelectedAction::Cipher(CipherKind::Caesar))
    } else if holds_word(&low, "vigenere") {
        Some(SelectedAction::Cipher(CipherKind::Vigenere))
    } else if holds_word(&low, "beaufort") {
        Some(SelectedAction::Cipher(CipherKind::Beaufort))
    } else if holds_word(&low, "atbash") {
        Some(SelectedAction::Cipher(CipherKind::Atbash))
    } else if holds_word(&low, "rot13") {
        Some(SelectedAction::Cipher(CipherKind::Rot13))
    } else if holds_word(&low, "affine") {
        Some(SelectedAction::Cipher(CipherKind::Affine))
    } else if holds_word(&low, "bacon") {
        Some(SelectedAction::Cipher(CipherKind::Baconian))
    } else if holds_word(&low, "railfence") {
        Some(SelectedAction::Cipher(CipherKind::Railfence))
    } else if holds_word(&low, "base64") {
        Some(SelectedAction::Cipher(CipherKind::Base64))
    } else if holds_word(&low, "autokey") {
        Some(SelectedAction::Cipher(CipherKind::Autokey))
    } else if holds_word(&low, "polybius") {
        Some(SelectedAction::Cipher(CipherKind::Polybius))
    } else if holds_word(&low, "simplesub") {
        Some(SelectedAction::Cipher(CipherKind::SimpleSub))
    } else if holds_word(&low, "columnar") {
        Some(SelectedAction::Cipher(CipherKind::Columnar))
    } else if holds_word(&low, "score") {
        Some(SelectedAction::Score)
    } else if holds_word(&low, "bruteforce") {
        Some(SelectedAction::Bruteforce)
    } else {
        None
    }
}

/// A few words about an action.
pub fn action_info(action: Option<SelectedAction>) -> (info: &'static str)
    ensures
        info@ == info_spec(action),
{
    match action {
        Some(SelectedAction::Cipher(kind)) => match kind {
            CipherKind::Caesar => CAESAR_INFO,
            CipherKind::Vigenere => VIGENERE_INFO,
            CipherKind::Beaufort => BEAUFORT_INFO,
            CipherKind::Autokey => AUTOKEY_INFO,
            CipherKind::Atbash => ATBASH_INFO,
            CipherKind::Rot13 => ROT13_INFO,
            CipherKind::Affine => AFFINE_INFO,
            CipherKind::Baconian => BACONIAN_INFO,
            CipherKind::Railfence => RAILFENCE_INFO,
            CipherKind::Polybius => POLYBIUS_INFO,
            CipherKind::SimpleSub => SIMPLESUB_INFO,
            CipherKind::Columnar => COLUMNAR_INFO,
            CipherKind::Base64 => BASE64_INFO,
        },
        Some(SelectedAction::Score) => SCORE_INFO,
        Some(SelectedAction::Bruteforce) => BRUTEFORCE_INFO,
        None => NOTHING_INFO,
    }
}

/// A few words about the action that `selected_action` stands for.
pub fn get_info(selected_action: &str) -> (info: String)
    ensures
        info@ == info_spec(selected_spec(selected_action@)),
{
    action_info(select_action(selected_action)).to_owned()
}

} // verus!
