//! Atbash, which mirrors each letter in its alphabet and each digit in the
//! run from `0` to `9`. Applying it twice changes nothing.

use vstd::prelude::*;
use crate::text::{
    char_is_digit, char_is_lower, char_is_upper, chars_of, is_digit, is_lower, is_upper, string_of,
};

verus! {

/// `c` mirrored: `A` for `Z`, `a` for `z`, `0` for `9` and the other way
/// round; every other character as it is.
pub open spec fn atbash_char(c: char) -> char {
    if is_upper(c) {
        (155 - c as int) as char
    } else if is_lower(c) {
        (219 - c as int) as char
    } else if is_digit(c) {
        (105 - c as int) as char
    } else {
        c
    }
}

/// `m` with every character mirrored.
pub open spec fn atbash_spec(m: Seq<char>) -> Seq<char> {
    Seq::new(m.len(), |i: int| atbash_char(m[i]))
}

fn mirror_char(c: char) -> (r: char)
    ensures
        r == atbash_char(c),
{
    if char_is_upper(c) {
        (155 - c as u8) as char
    } else if char_is_lower(c) {
        (219 - c as u8) as char
    } else if char_is_digit(c) {
        (105 - c as u8) as char
    } else {
        c
    }
}

/// Mirrors every letter and digit of `message`. The same call undoes it.
pub fn atbash_cipher(message: &str) -> (result: String)
    ensures
        result@ == atbash_spec(message@),
{
    let input = chars_of(message);
    let mut out: Vec<char> = Vec::new();
    let mut i: usize = 0;
    while i < input.len()
        invariant
            i <= input.len(),
            out@.len() == i,
            forall|j: int| 0 <= j < i ==> out@[j] == atbash_char(input@[j]),
        decreases input.len() - i,
    {
        out.push(mirror_char(input[i]));
        i += 1;
    }
    string_of(&out)
}

/// Mirroring a character twice gives it back.
pub proof fn lemma_atbash_char_involution(c: char)
    ensures
        atbash_char(atbash_char(c)) == c,
{
}

/// Atbash applied twice gives the message back.
pub proof fn lemma_atbash_involution(m: Seq<char>)
    ensures
        atbash_spec(atbash_spec(m)) == m,
{
    assert forall|i: int| 0 <= i < m.len() implies atbash_spec(atbash_spec(m))[i] == m[i] by {
        lemma_atbash_char_involution(m[i]);
    }
    assert(atbash_spec(atbash_spec(m)) =~= m);
}

} // verus!
