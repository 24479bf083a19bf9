//! The autokey cipher: Vigenere under a key that goes on with the message
//! itself once the key proper is used up.

use vstd::prelude::*;
use crate::ciphers::{CipherError, Direction, view_result};
use crate::ciphers::caesar::unshift_char;
use crate::ciphers::keys::{bytes_spell, checked_key, key_error};
use crate::text::{char_is_lower, chars_of, is_lower, lower_char, string_of, to_lower};
use crate::utils::shift::{lemma_shift_round_trip, shift_char, shift_spec};

verus! {

/// The character of the running key at place `i`: the key first and the
/// plain text `plain` behind it, in lower case.
pub open spec fn running_key(key: Seq<char>, plain: Seq<char>, i: int) -> char {
    to_lower(
        if i < key.len() {
            key[i]
        } else {
            plain[i - key.len()]
        },
    )
}

/// `c` encrypted under the running-key character `k`: shifted by the
/// distance of `k` from `a` where `k` is a letter, and left alone where it
/// is not.
pub open spec fn autokey_forward(c: char, k: char) -> char {
    if is_lower(k) {
        shift_spec(c, k as int - 97)
    } else {
        c
    }
}

/// `c` decrypted under the running-key character `k`.
pub open spec fn autokey_backward(c: char, k: char) -> char {
    if is_lower(k) {
        shift_spec(c, -(k as int - 97))
    } else {
        c
    }
}

/// `m` encrypted under `key` followed by `m` itself.
pub open spec fn autokey_encrypt_text(m: Seq<char>, key: Seq<char>) -> Seq<char> {
    Seq::new(m.len(), |i: int| autokey_forward(m[i], running_key(key, m, i)))
}

/// The first `n` characters of the plain text of `c`. Each is decrypted
/// under the running key, which from the end of the key on is the plain
/// text recovered so far.
pub open spec fn autokey_decrypt_prefix(c: Seq<char>, key: Seq<char>, n: int) -> Seq<char>
    decreases n,
{
    if n <= 0 {
        Seq::empty()
    } else {
        let plain = autokey_decrypt_prefix(c, key, n - 1);
        plain.push(autokey_backward(c[n - 1], running_key(key, plain, n - 1)))
    }
}

/// What the autokey cipher makes of `m`: an error for a key that is empty
/// or not ASCII, else the encrypted or decrypted text.
pub open spec fn autokey_spec(m: Seq<char>, key: Seq<char>, direction: Direction) -> Result<
    Seq<char>,
    CipherError,
> {
    match key_error(key) {
        Some(e) => Err(e),
        None => match direction {
            Direction::Encrypt => Ok(autokey_encrypt_text(m, key)),
            Direction::Decrypt => Ok(autokey_decrypt_prefix(m, key, m.len() as int)),
        },
    }
}

/// Encrypts or decrypts `message` under `key` followed by the plain text.
/// A place whose running-key character is no letter is passed over
/// unchanged. An empty key and a key with a character beyond ASCII are
/// errors.
pub fn autokey_cipher(message: &str, key: &str, direction: Direction) -> (result: Result<
    String,
    CipherError,
>)
    ensures
        view_result(result) == autokey_spec(message@, key@, direction),
{
    let key_bytes = match checked_key(key) {
        Ok(bytes) => bytes,
        Err(e) => {
            return Err(e);
        },
    };
    let input = chars_of(message);
    let width = key_bytes.len();
    let n = input.len();
    let mut out: Vec<char> = Vec::new();
    let mut i: usize = 0;
    while i < n
        invariant
            i <= n,
            n == input@.len(),
            0 < width,
            width == key@.len(),
            bytes_spell(key_bytes@, key@),
            out@.len() == i,
            direction == Direction::Encrypt ==> forall|j: int|
                0 <= j < i ==> out@[j] == autokey_forward(
                    input@[j],
                    running_key(key@, input@, j),
                ),
            direction == Direction::Decrypt ==> out@ == autokey_decrypt_prefix(
                input@,
                key@,
                i as int,
            ),
        decreases n - i,
    {
        let c = input[i];
        let source: char = if i < width {
            let b = key_bytes[i];
            b as char
        } else {
            match direction {
                Direction::Encrypt => input[i - width],
                Direction::Decrypt => out[i - width],
            }
        };
        let k = lower_char(source);
        let moved = if char_is_lower(k) {
            let shift: i32 = k as u8 as i32 - 97;
            match direction {
                Direction::Encrypt => shift_char(c, shift),
                Direction::Decrypt => unshift_char(c, shift),
            }
        } else {
            c
        };
        out.push(moved);
        i += 1;
    }
    proof {
        if direction == Direction::Encrypt {
            assert(out@ =~= autokey_encrypt_text(message@, key@));
        }
    }
    Ok(string_of(&out))
}

/// The plain text is recovered place by place: the first `n` characters of
/// what the encrypted message decrypts to are the first `n` of the message.
pub proof fn lemma_autokey_prefix(m: Seq<char>, key: Seq<char>, n: int)
    requires
        0 < key.len(),
        0 <= n <= m.len(),
    ensures
        autokey_decrypt_prefix(autokey_encrypt_text(m, key), key, n) == m.take(n),
    decreases n,
{
    if n > 0 {
        lemma_autokey_prefix(m, key, n - 1);
        let e = autokey_encrypt_text(m, key);
        let plain = m.take(n - 1);
        let k = running_key(key, m, n - 1);
        assert(running_key(key, plain, n - 1) == k);
        lemma_autokey_char(m[n - 1], k);
        assert(m.take(n) =~= plain.push(m[n - 1]));
    } else {
        assert(m.take(0) =~= Seq::<char>::empty());
    }
}

/// Decrypting a character under the running-key character it was
/// encrypted under gives it back.
pub proof fn lemma_autokey_char(c: char, k: char)
    ensures
        autokey_backward(autokey_forward(c, k), k) == c,
{
    if is_lower(k) {
        lemma_shift_round_trip(c, k as int - 97);
    }
}

/// Decrypting under the key what was encrypted under it gives the message
/// back.
pub proof fn lemma_autokey_round_trip(m: Seq<char>, key: Seq<char>)
    requires
        key_error(key) is None,
    ensures
        autokey_spec(m, key, Direction::Encrypt) is Ok,
        autokey_spec(autokey_spec(m, key, Direction::Encrypt)->Ok_0, key, Direction::Decrypt)
            == Ok::<Seq<char>, CipherError>(m),
{
    lemma_autokey_prefix(m, key, m.len() as int);
    assert(m.take(m.len() as int) =~= m);
}

} // verus!
