//! The Vigenere cipher, which shifts each character by the amount that the
//! key names for its place, the key repeated as often as needed; and the
//! Beaufort cipher, which is Vigenere under the mirrored key.

use vstd::prelude::*;
use crate::ciphers::{CipherError, Direction, view_result};
use crate::ciphers::atbash::{atbash_cipher, atbash_char, atbash_spec};
use crate::ciphers::caesar::{signed_shift, unshift_char};
use crate::ciphers::keys::{bytes_spell, checked_key, key_error};
use crate::text::{all_ascii, chars_of, string_of};
use crate::utils::shift::{lemma_shift_round_trip, shift_char, shift_spec};

verus! {

/// The shift that `key` names for place `i` of a message: the distance of
/// its character from `a`, the key taken round and round.
pub open spec fn key_shift(key: Seq<char>, i: int) -> int {
    key[i % (key.len() as int)] as int - 97
}

/// `m` with each character shifted by what `key` names for its place,
/// forwards to encrypt and backwards to decrypt.
pub open spec fn vigenere_text(m: Seq<char>, key: Seq<char>, direction: Direction) -> Seq<char> {
    Seq::new(m.len(), |i: int| shift_spec(m[i], signed_shift(key_shift(key, i), direction)))
}

/// What Vigenere makes of `m`: an error for a key that is empty or not
/// ASCII, else the shifted text.
pub open spec fn vigenere_spec(m: Seq<char>, key: Seq<char>, direction: Direction) -> Result<
    Seq<char>,
    CipherError,
> {
    match key_error(key) {
        Some(e) => Err(e),
        None => Ok(vigenere_text(m, key, direction)),
    }
}

/// What Beaufort makes of `m`: Vigenere under the mirrored key.
pub open spec fn beaufort_spec(m: Seq<char>, key: Seq<char>, direction: Direction) -> Result<
    Seq<char>,
    CipherError,
> {
    vigenere_spec(m, atbash_spec(key), direction)
}

/// Shifts each character of `message` by the distance from `a` of the key
/// character for its place. Every character of the message moves the key on
/// by one place, whether the shift touches it or not. An empty key and a key
/// with a character beyond ASCII are errors.
pub fn vigenere_cipher(message: &str, key: &str, direction: Direction) -> (result: Result<
    String,
    CipherError,
>)
    ensures
        view_result(result) == vigenere_spec(message@, key@, direction),
{
    let key_bytes = match checked_key(key) {
        Ok(bytes) => bytes,
        Err(e) => {
            return Err(e);
        },
    };
    let input = chars_of(message);
    let width = key_bytes.len();
    let mut out: Vec<char> = Vec::new();
    let mut cursor: usize = 0;
    let mut i: usize = 0;
    while i < input.len()
        invariant
            i <= input.len(),
            0 < width,
            width == key@.len(),
            bytes_spell(key_bytes@, key@),
            cursor == i % width,
            out@.len() == i,
            forall|j: int|
                0 <= j < i ==> out@[j] == shift_spec(
                    input@[j],
                    signed_shift(key_shift(key@, j), direction),
                ),
        decreases input.len() - i,
    {
        let shift: i32 = key_bytes[cursor] as i32 - 97;
        let moved = match direction {
            Direction::Encrypt => shift_char(input[i], shift),
            Direction::Decrypt => unshift_char(input[i], shift),
        };
        out.push(moved);
        proof {
            lemma_next_place(i as int, width as int);
        }
        cursor = if cursor + 1 == width {
            0
        } else {
            cursor + 1
        };
        i += 1;
    }
    assert(out@ =~= vigenere_text(message@, key@, direction));
    Ok(string_of(&out))
}

/// Vigenere under the key mirrored by Atbash.
pub fn beaufort_cipher(message: &str, key: &str, direction: Direction) -> (result: Result<
    String,
    CipherError,
>)
    ensures
        view_result(result) == beaufort_spec(message@, key@, direction),
{
    let reversed_key = atbash_cipher(key);
    vigenere_cipher(message, reversed_key.as_str(), direction)
}

/// Going on by one place in the message goes on by one place round the key.
pub proof fn lemma_next_place(i: int, width: int)
    requires
        0 <= i,
        0 < width,
    ensures
        (i + 1) % width == if i % width + 1 == width {
            0
        } else {
            i % width + 1
        },
{
    let q = i / width;
    let r = i % width;
    vstd::arithmetic::div_mod::lemma_fundamental_div_mod(i, width);
    if r + 1 == width {
        assert(width * (q + 1) == width * q + width) by (nonlinear_arith);
        vstd::arithmetic::div_mod::lemma_fundamental_div_mod_converse(i + 1, width, q + 1, 0);
    } else {
        vstd::arithmetic::div_mod::lemma_fundamental_div_mod_converse(i + 1, width, q, r + 1);
    }
}

/// Decrypting under the key what was encrypted under it gives the message
/// back.
pub proof fn lemma_vigenere_round_trip(m: Seq<char>, key: Seq<char>)
    requires
        key_error(key) is None,
    ensures
        vigenere_spec(m, key, Direction::Encrypt) is Ok,
        vigenere_spec(vigenere_spec(m, key, Direction::Encrypt)->Ok_0, key, Direction::Decrypt)
            == Ok::<Seq<char>, CipherError>(m),
{
    let e = vigenere_text(m, key, Direction::Encrypt);
    let d = vigenere_text(e, key, Direction::Decrypt);
    assert forall|i: int| 0 <= i < m.len() implies d[i] == m[i] by {
        lemma_shift_round_trip(m[i], key_shift(key, i));
    }
    assert(d =~= m);
}

/// The mirrored key is refused exactly when the key is, and for the same
/// reason.
pub proof fn lemma_mirrored_key_error(key: Seq<char>)
    ensures
        key_error(atbash_spec(key)) == key_error(key),
{
    let mirrored = atbash_spec(key);
    if all_ascii(key) {
        assert forall|i: int| 0 <= i < mirrored.len() implies (#[trigger] mirrored[i] as int)
            < 128 by {
            lemma_mirror_keeps_ascii(key[i]);
        }
    } else {
        let i = choose|i: int| 0 <= i < key.len() && !((#[trigger] key[i] as int) < 128);
        lemma_mirror_keeps_ascii(key[i]);
        assert(!((mirrored[i] as int) < 128));
    }
}

/// Mirroring a character keeps it on its side of the end of ASCII.
pub proof fn lemma_mirror_keeps_ascii(c: char)
    ensures
        ((atbash_char(c) as int) < 128) == ((c as int) < 128),
{
}

/// Decrypting under the key what Beaufort encrypted under it gives the
/// message back.
pub proof fn lemma_beaufort_round_trip(m: Seq<char>, key: Seq<char>)
    requires
        key_error(key) is None,
    ensures
        beaufort_spec(m, key, Direction::Encrypt) is Ok,
        beaufort_spec(beaufort_spec(m, key, Direction::Encrypt)->Ok_0, key, Direction::Decrypt)
            == Ok::<Seq<char>, CipherError>(m),
{
    lemma_mirrored_key_error(key);
    lemma_vigenere_round_trip(m, atbash_spec(key));
}

} // verus!
