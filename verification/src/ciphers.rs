//! The cipher transforms, one module each, and the types they share.

use vstd::prelude::*;

pub mod affine;
pub mod apply;
pub mod atbash;
pub mod autokey;
pub mod baconian;
pub mod base64;
pub mod caesar;
pub mod columnar;
pub mod keys;
pub mod polybius;
pub mod railfence;
pub mod rot13;
pub mod simplesub;
pub mod vigenere;

pub use affine::affine_cipher;
pub use apply::apply_cipher;
pub use atbash::atbash_cipher;
pub use autokey::autokey_cipher;
pub use baconian::baconian_cipher;
pub use base64::base64_cipher;
pub use caesar::caesar_cipher;
pub use columnar::col_trans_cipher;
pub use polybius::polybius_cipher;
pub use railfence::railfence_cipher;
pub use rot13::rot13_cipher;
pub use simplesub::simplesub_cipher;
pub use vigenere::{beaufort_cipher, vigenere_cipher};

verus! {

/// Which way a transform runs.
#[derive(Clone, Copy, Debug, PartialEq, Eq, Structural)]
pub enum Direction {
    Encrypt,
    Decrypt,
}

/// The transforms of this library.
#[derive(Clone, Copy, Debug, PartialEq, Eq, Structural)]
pub enum CipherKind {
    Caesar,
    Vigenere,
    Beaufort,
    Autokey,
    Atbash,
    Rot13,
    Affine,
    Baconian,
    Railfence,
    Polybius,
    SimpleSub,
    Columnar,
    Base64,
}

/// Why a transform refused its input.
#[derive(Clone, Copy, Debug, PartialEq, Eq, Structural)]
pub enum CipherError {
    /// The message holds no character at all.
    EmptyMessage,
    /// The key of a keyed cipher holds no character at all.
    EmptyKey,
    /// The key of a keyed cipher holds a character beyond ASCII.
    NonAsciiKey,
    /// The key is not a whole number where one is needed.
    KeyNotANumber,
    /// The affine multiplier shares a factor with 26 and so cannot be undone.
    MultiplierNotCoprime,
    /// The number of rails is below two or above the length of the message.
    RailsOutOfRange,
    /// The text to decode holds a character that no encoding produces.
    MalformedCiphertext,
}

impl CipherError {
    /// What the error says to someone who reads it.
    pub open spec fn message_spec(self) -> Seq<char> {
        match self {
            CipherError::EmptyMessage => EMPTY_MESSAGE@,
            CipherError::EmptyKey => EMPTY_KEY@,
            CipherError::NonAsciiKey => NON_ASCII_KEY@,
            CipherError::KeyNotANumber => KEY_NOT_A_NUMBER@,
            CipherError::MultiplierNotCoprime => MULTIPLIER_NOT_COPRIME@,
            CipherError::RailsOutOfRange => RAILS_OUT_OF_RANGE@,
            CipherError::MalformedCiphertext => MALFORMED_CIPHERTEXT@,
        }
    }

    /// What the error says to someone who reads it.
    pub fn message(&self) -> (text: &'static str)
        ensures
            text@ == self.message_spec(),
    {
        match self {
            CipherError::EmptyMessage => EMPTY_MESSAGE,
            CipherError::EmptyKey => EMPTY_KEY,
            CipherError::NonAsciiKey => NON_ASCII_KEY,
            CipherError::KeyNotANumber => KEY_NOT_A_NUMBER,
            CipherError::MultiplierNotCoprime => MULTIPLIER_NOT_COPRIME,
            CipherError::RailsOutOfRange => RAILS_OUT_OF_RANGE,
            CipherError::MalformedCiphertext => MALFORMED_CIPHERTEXT,
        }
    }
}

pub const EMPTY_MESSAGE: &'static str =
    "Error: Message not found! Ensure that message is not empty.";

pub const EMPTY_KEY: &'static str = "Error: The secret key must not be empty.";

pub const NON_ASCII_KEY: &'static str =
    "Error: The secret key must hold ASCII characters only.";

pub const KEY_NOT_A_NUMBER: &'static str =
    "Error: The key could not be parsed. Ensure that it is made of valid integers.";

pub const MULTIPLIER_NOT_COPRIME: &'static str =
    "Error: Secret key a is not coprime to 26 and cannot be undone.";

pub const RAILS_OUT_OF_RANGE: &'static str =
    "Error: The number of rails must be at least 2 and at most the length of the message.";

pub const MALFORMED_CIPHERTEXT: &'static str =
    "Error: The text holds a character that no encoding produces.";

/// The result of a transform with its text taken as a sequence of
/// characters.
pub open spec fn view_result(r: Result<String, CipherError>) -> Result<Seq<char>, CipherError> {
    match r {
        Ok(s) => Ok(s@),
        Err(e) => Err(e),
    }
}

} // verus!
