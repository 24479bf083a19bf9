//! ROT13, which turns each letter half-way round its alphabet. Applying it
//! twice changes nothing.

use vstd::prelude::*;
use crate::text::{char_is_lower, char_is_upper, chars_of, is_lower, is_upper, string_of};

verus! {

/// `c` moved 13 places round its alphabet, its case kept; a character that
/// is no letter as it is.
pub open spec fn rot13_char(c: char) -> char {
    if is_upper(c) {
        ((c as int - 65 + 13) % 26 + 65) as char
    } else if is_lower(c) {
        ((c as int - 97 + 13) % 26 + 97) as char
    } else {
        c
    }
}

/// `m` with every letter moved 13 places.
pub open spec fn rot13_spec(m: Seq<char>) -> Seq<char> {
    Seq::new(m.len(), |i: int| rot13_char(m[i]))
}

fn rotate_char(c: char) -> (r: char)
    ensures
        r == rot13_char(c),
{
    if char_is_upper(c) {
        ((c as u8 - 65 + 13) % 26 + 65) as char
    } else if char_is_lower(c) {
        ((c as u8 - 97 + 13) % 26 + 97) as char
    } else {
        c
    }
}

/// Moves every letter of `message` 13 places round its alphabet. The same
/// call undoes it.
pub fn rot13_cipher(message: &str) -> (result: String)
    ensures
        result@ == rot13_spec(message@),
{
    let input = chars_of(message);
    let mut out: Vec<char> = Vec::new();
    let mut i: usize = 0;
    while i < input.len()
        invariant
            i <= input.len(),
            out@.len() == i,
            forall|j: int| 0 <= j < i ==> out@[j] == rot13_char(input@[j]),
        decreases input.len() - i,
    {
        out.push(rotate_char(input[i]));
        i += 1;
    }
    string_of(&out)
}

/// Moving a character 13 places twice gives it back.
pub proof fn lemma_rot13_char_involution(c: char)
    ensures
        rot13_char(rot13_char(c)) == c,
{
}

/// ROT13 applied twice gives the message back.
pub proof fn lemma_rot13_involution(m: Seq<char>)
    ensures
        rot13_spec(rot13_spec(m)) == m,
{
    assert forall|i: int| 0 <= i < m.len() implies rot13_spec(rot13_spec(m))[i] == m[i] by {
        lemma_rot13_char_involution(m[i]);
    }
    assert(rot13_spec(rot13_spec(m)) =~= m);
}

} // verus!
