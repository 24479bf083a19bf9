//! What the keyed ciphers ask of a key: that it is not empty and holds
//! nothing beyond ASCII. A key that fails is refused with an error that says
//! which of the two it was; no other key is ever put in its place. A caller
//! who wants a stand-in key passes `DEFAULT_KEY` in plain sight.

use vstd::prelude::*;
use crate::ciphers::CipherError;
use crate::text::all_ascii;

verus! {

/// The key that callers may fall back to when they have none of their own.
pub const DEFAULT_KEY: &'static str = "key";

/// Why `key` is refused, if it is.
pub open spec fn key_error(key: Seq<char>) -> Option<CipherError> {
    if key.len() == 0 {
        Some(CipherError::EmptyKey)
    } else if !all_ascii(key) {
        Some(CipherError::NonAsciiKey)
    } else {
        None
    }
}

/// Whether `bytes` are the code points of `key`, one for one.
pub open spec fn bytes_spell(bytes: Seq<u8>, key: Seq<char>) -> bool {
    &&& bytes.len() == key.len()
    &&& forall|i: int| 0 <= i < key.len() ==> #[trigger] bytes[i] as int == key[i] as int
}

/// `ascii::AsciiStr::from_ascii` followed by `AsciiStr::as_bytes`: the
/// bytes of `s` where every character of `s` is ASCII, and nothing where
/// one is not. Each byte of an ASCII string is the code point of the
/// character at its place.
#[verifier::external_body]
fn ascii_bytes(s: &str) -> (r: Option<Vec<u8>>)
    ensures
        r is Some == all_ascii(s@),
        r matches Some(bytes) ==> bytes_spell(bytes@, s@),
{
    match ascii::AsciiStr::from_ascii(s) {
        Ok(text) => Some(text.as_bytes().to_vec()),
        Err(_) => None,
    }
}

/// The bytes of a key that a keyed cipher can use, or the reason why it
/// cannot use the key.
pub fn checked_key(key: &str) -> (r: Result<Vec<u8>, CipherError>)
    ensures
        match r {
            Ok(bytes) => key_error(key@) is None && bytes_spell(bytes@, key@),
            Err(e) => key_error(key@) == Some(e),
        },
{
    match ascii_bytes(key) {
        Some(bytes) => {
            if bytes.len() == 0 {
                Err(CipherError::EmptyKey)
            } else {
                Ok(bytes)
            }
        },
        None => {
            Err(CipherError::NonAsciiKey)
        },
    }
}

/// The key to use under the fall-back policy, and whether it is the
/// stand-in: `key` itself where the keyed ciphers accept it, and
/// `DEFAULT_KEY` where they would refuse it. The ciphers never fall back by
/// themselves; a caller who wants the policy asks for it here and is told
/// when it struck.
pub fn key_or_default<'a>(key: &'a str) -> (choice: (&'a str, bool))
    ensures
        choice.1 == key_error(key@) is Some,
        choice.1 ==> choice.0@ == DEFAULT_KEY@,
        !choice.1 ==> choice.0@ == key@,
{
    match checked_key(key) {
        Ok(_) => (key, false),
        Err(_) => (DEFAULT_KEY, true),
    }
}

/// The stand-in key is a key that the keyed ciphers accept.
pub proof fn lemma_default_key_is_accepted()
    ensures
        key_error(DEFAULT_KEY@) is None,
{
    reveal_strlit("key");
}

} // verus!
