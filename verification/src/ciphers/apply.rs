//! One door to all transforms: the kind of cipher, the message, the key as
//! text and the direction go in, and the transformed text or the reason for
//! refusing comes out. An empty message is refused before any cipher is
//! tried.
//!
//! How the key is read depends on the kind. The shift cipher wants a whole
//! number, white space round it allowed; the rail fence wants a whole number
//! and nothing else; the affine cipher wants two whole numbers with a comma
//! between them, anything behind a second comma ignored. The ciphers with a
//! word for a key take the text as it is, and the rest take no key.

use vstd::prelude::*;
use crate::ciphers::{CipherError, CipherKind, Direction, view_result};
use crate::ciphers::affine::{affine_cipher, affine_spec, lemma_affine_round_trip};
use crate::ciphers::atbash::{atbash_cipher, atbash_spec, lemma_atbash_involution};
use crate::ciphers::autokey::{autokey_cipher, autokey_spec, lemma_autokey_round_trip};
use crate::ciphers::baconian::{bacon_decode_spec, bacon_encodes, baconian_cipher};
use crate::ciphers::base64::{
    base64_cipher, base64_decode_spec, base64_encode_spec, fits_bytes, is_printable,
    lemma_base64_round_trip, lemma_printable_fits_bytes,
};
use crate::ciphers::caesar::{caesar_cipher, caesar_spec, lemma_caesar_round_trip, signed_shift};
use crate::ciphers::columnar::{col_trans_cipher, col_trans_spec, lemma_columnar_round_trip};
use crate::ciphers::polybius::{lemma_polybius_round_trip, polybius_cipher, polybius_spec};
use crate::ciphers::railfence::{lemma_railfence_round_trip, railfence_cipher, railfence_spec};
use crate::ciphers::rot13::{lemma_rot13_involution, rot13_cipher, rot13_spec};
use crate::ciphers::simplesub::{
    alphabet, is_letter_permutation, lemma_simplesub_round_trip, seeded_shuffle, simplesub_cipher,
    simplesub_spec,
};
use crate::ciphers::vigenere::{
    beaufort_cipher, beaufort_spec, lemma_beaufort_round_trip, lemma_vigenere_round_trip,
    vigenere_cipher, vigenere_spec,
};
use crate::text::{chars_of, find_char, find_in_chars, slice_chars, trim_chars, trimmed};
use crate::utils::numbers::{parse_int, parse_int_spec};

verus! {

/// The two numbers of an affine key: the text before the first comma and
/// the text between the first comma and the second, or the end. A key
/// without a comma, or with a part that spells no number, holds none.
pub open spec fn affine_key_spec(key: Seq<char>) -> Option<(int, int)> {
    let first = find_char(key, ',', 0);
    let second = find_char(key, ',', first + 1);
    if first >= key.len() {
        None
    } else {
        match (parse_int_spec(key.take(first)), parse_int_spec(key.subrange(first + 1, second))) {
            (Some(a), Some(b)) => Some((a, b)),
            _ => None,
        }
    }
}

/// What a transform makes of a message that is not empty. For the Baconian
/// cipher this is its decoding in either direction: its encoding is left to
/// chance and stated by `apply_allows`.
pub open spec fn transform_spec(
    kind: CipherKind,
    m: Seq<char>,
    key: Seq<char>,
    direction: Direction,
) -> Result<Seq<char>, CipherError> {
    match kind {
        CipherKind::Caesar => match parse_int_spec(trimmed(key)) {
            Some(shift) => Ok(caesar_spec(m, signed_shift(shift, direction))),
            None => Err(CipherError::KeyNotANumber),
        },
        CipherKind::Vigenere => vigenere_spec(m, key, direction),
        CipherKind::Beaufort => beaufort_spec(m, key, direction),
        CipherKind::Autokey => autokey_spec(m, key, direction),
        CipherKind::Atbash => Ok(atbash_spec(m)),
        CipherKind::Rot13 => Ok(rot13_spec(m)),
        CipherKind::Affine => match affine_key_spec(key) {
            Some((a, b)) => affine_spec(m, a, b, direction),
            None => Err(CipherError::KeyNotANumber),
        },
        CipherKind::Baconian => bacon_decode_spec(m),
        CipherKind::Railfence => match parse_int_spec(key) {
            Some(rails) => railfence_spec(m, rails, direction),
            None => Err(CipherError::KeyNotANumber),
        },
        CipherKind::Polybius => Ok(polybius_spec(m, direction)),
        CipherKind::SimpleSub => Ok(
            simplesub_spec(m, seeded_shuffle(alphabet(), key), direction),
        ),
        CipherKind::Columnar => col_trans_spec(m, key, direction),
        CipherKind::Base64 => match direction {
            Direction::Encrypt => Ok(base64_encode_spec(m)),
            Direction::Decrypt => base64_decode_spec(m),
        },
    }
}

/// Whether a transform is left to chance, so that one input has many
/// results.
pub open spec fn is_random(kind: CipherKind, direction: Direction) -> bool {
    kind == CipherKind::Baconian && direction == Direction::Encrypt
}

/// Whether `result` is a result that applying a transform may give: the
/// error for an empty message; of the Baconian encoding, any encoding of the
/// message; of every other transform, the one result it has.
pub open spec fn apply_allows(
    kind: CipherKind,
    m: Seq<char>,
    key: Seq<char>,
    direction: Direction,
    result: Result<Seq<char>, CipherError>,
) -> bool {
    if m.len() == 0 {
        result == Err::<Seq<char>, CipherError>(CipherError::EmptyMessage)
    } else if is_random(kind, direction) {
        result is Ok && bacon_encodes(m, result->Ok_0)
    } else {
        result == transform_spec(kind, m, key, direction)
    }
}

/// Reads the two numbers of an affine key.
fn affine_key(key: &Vec<char>) -> (r: Option<(i32, i32)>)
    ensures
        match r {
            Some((a, b)) => affine_key_spec(key@) == Some((a as int, b as int)),
            None => affine_key_spec(key@) is None,
        },
{
    let first = find_in_chars(key, ',', 0);
    if first >= key.len() {
        return None;
    }
    let second = find_in_chars(key, ',', first + 1);
    let head = slice_chars(key, 0, first);
    let tail = slice_chars(key, first + 1, second);
    match parse_int(&head) {
        Some(a) => match parse_int(&tail) {
            Some(b) => Some((a, b)),
            None => None,
        },
        None => None,
    }
}

/// Applies the transform `kind` to `message` under `key` in the given
/// direction.
pub fn apply_cipher(kind: CipherKind, message: &str, key: &str, direction: Direction) -> (result:
    Result<String, CipherError>)
    ensures
        apply_allows(kind, message@, key@, direction, view_result(result)),
{
    if message.is_empty() {
        return Err(CipherError::EmptyMessage);
    }
    match kind {
        CipherKind::Caesar => {
            let key_chars = chars_of(key);
            let number = trim_chars(&key_chars);
            match parse_int(&number) {
                Some(shift) => Ok(caesar_cipher(message, shift, direction)),
                None => Err(CipherError::KeyNotANumber),
            }
        },
        CipherKind::Vigenere => vigenere_cipher(message, key, direction),
        CipherKind::Beaufort => beaufort_cipher(message, key, direction),
        CipherKind::Autokey => autokey_cipher(message, key, direction),
        CipherKind::Atbash => Ok(atbash_cipher(message)),
        CipherKind::Rot13 => Ok(rot13_cipher(message)),
        CipherKind::Affine => {
            let key_chars = chars_of(key);
            match affine_key(&key_chars) {
                Some((a, b)) => affine_cipher(message, a, b, direction),
                None => Err(CipherError::KeyNotANumber),
            }
        },
        CipherKind::Baconian => baconian_cipher(message, direction),
        CipherKind::Railfence => {
            let key_chars = chars_of(key);
            match parse_int(&key_chars) {
                Some(rails) => railfence_cipher(message, rails, direction),
                None => Err(CipherError::KeyNotANumber),
            }
        },
        CipherKind::Polybius => Ok(polybius_cipher(message, direction)),
        CipherKind::SimpleSub => Ok(simplesub_cipher(message, key, direction)),
        CipherKind::Columnar => col_trans_cipher(message, key, direction),
        CipherKind::Base64 => base64_cipher(message, direction),
    }
}

/// Whether decrypting what was encrypted gives exactly the message back.
/// Most transforms do for every message. Base64 does for a message whose
/// characters all lie below 256, and so for every message of printable
/// ASCII; the columnar transposition does for a message that fills whole
/// rows, and else returns the message with its padding; the Baconian
/// encoding, left to chance and blind to case, is stated apart. Of the
/// substitution under a seed it is asked that the seed's alphabet is an
/// alphabet, which `shuffled_alphabet` shows of every seed.
pub open spec fn round_trips_exactly(kind: CipherKind, m: Seq<char>, key: Seq<char>) -> bool {
    match kind {
        CipherKind::SimpleSub => is_letter_permutation(seeded_shuffle(alphabet(), key)),
        CipherKind::Base64 => fits_bytes(m),
        CipherKind::Columnar => key.len() > 0 && m.len() % key.len() == 0,
        CipherKind::Baconian => false,
        _ => true,
    }
}

/// For every transform and every key that the transform accepts,
/// decrypting under the key what was encrypted under it gives the message
/// back.
pub proof fn lemma_round_trip(kind: CipherKind, m: Seq<char>, key: Seq<char>)
    requires
        round_trips_exactly(kind, m, key),
        transform_spec(kind, m, key, Direction::Encrypt) is Ok,
    ensures
        transform_spec(
            kind,
            transform_spec(kind, m, key, Direction::Encrypt)->Ok_0,
            key,
            Direction::Decrypt,
        ) == Ok::<Seq<char>, CipherError>(m),
{
    match kind {
        CipherKind::Caesar => {
            lemma_caesar_round_trip(m, parse_int_spec(trimmed(key))->Some_0);
        },
        CipherKind::Vigenere => {
            lemma_vigenere_round_trip(m, key);
        },
        CipherKind::Beaufort => {
            crate::ciphers::vigenere::lemma_mirrored_key_error(key);
            lemma_beaufort_round_trip(m, key);
        },
        CipherKind::Autokey => {
            lemma_autokey_round_trip(m, key);
        },
        CipherKind::Atbash => {
            lemma_atbash_involution(m);
        },
        CipherKind::Rot13 => {
            lemma_rot13_involution(m);
        },
        CipherKind::Affine => {
            let (a, b) = affine_key_spec(key)->Some_0;
            lemma_affine_round_trip(m, a, b);
        },
        CipherKind::Baconian => {},
        CipherKind::Railfence => {
            let rails = parse_int_spec(key)->Some_0;
            lemma_railfence_round_trip(m, rails);
            crate::ciphers::railfence::lemma_rows_upto_len(m, rails, rails);
            crate::ciphers::railfence::lemma_row_offset_total(m.len() as int, rails);
        },
        CipherKind::Polybius => {
            lemma_polybius_round_trip(m);
        },
        CipherKind::SimpleSub => {
            lemma_simplesub_round_trip(m, seeded_shuffle(alphabet(), key));
        },
        CipherKind::Columnar => {
            lemma_columnar_round_trip(m, key);
        },
        CipherKind::Base64 => {
            lemma_base64_round_trip(m);
        },
    }
}

/// For every transform but the Baconian encoding, every message of
/// printable ASCII and every key that the transform accepts, decrypting
/// under the key what was encrypted under it gives the message back; of the
/// columnar transposition where the message fills whole rows.
pub proof fn lemma_round_trip_printable(kind: CipherKind, m: Seq<char>, key: Seq<char>)
    requires
        is_printable(m),
        kind != CipherKind::Baconian,
        kind == CipherKind::Columnar ==> key.len() > 0 && m.len() % key.len() == 0,
        kind == CipherKind::SimpleSub ==> is_letter_permutation(seeded_shuffle(alphabet(), key)),
        transform_spec(kind, m, key, Direction::Encrypt) is Ok,
    ensures
        transform_spec(
            kind,
            transform_spec(kind, m, key, Direction::Encrypt)->Ok_0,
            key,
            Direction::Decrypt,
        ) == Ok::<Seq<char>, CipherError>(m),
{
    lemma_printable_fits_bytes(m);
    lemma_round_trip(kind, m, key);
}

} // verus!
