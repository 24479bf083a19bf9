//! The shift cipher: every character moved by one and the same amount.

use vstd::prelude::*;
use crate::ciphers::Direction;
use crate::text::{chars_of, string_of};
use crate::utils::shift::{shift_char, shift_spec, lemma_shift_round_trip};

verus! {

/// The shift that a direction applies: `shift` itself to encrypt, its
/// negative to decrypt.
pub open spec fn signed_shift(shift: int, direction: Direction) -> int {
    match direction {
        Direction::Encrypt => shift,
        Direction::Decrypt => -shift,
    }
}

/// `m` with every character shifted by `delta`.
pub open spec fn caesar_spec(m: Seq<char>, delta: int) -> Seq<char> {
    Seq::new(m.len(), |i: int| shift_spec(m[i], delta))
}

/// Shifts every character of `message` by `shift` to encrypt, by `-shift`
/// to decrypt. Digits and punctuation inside the band are shifted too.
pub fn caesar_cipher(message: &str, shift: i32, direction: Direction) -> (result: String)
    ensures
        result@ == caesar_spec(message@, signed_shift(shift as int, direction)),
{
    let input = chars_of(message);
    let mut out: Vec<char> = Vec::new();
    let mut i: usize = 0;
    while i < input.len()
        invariant
            i <= input.len(),
            out@.len() == i,
            forall|j: int|
                0 <= j < i ==> out@[j] == shift_spec(
                    input@[j],
                    signed_shift(shift as int, direction),
                ),
        decreases input.len() - i,
    {
        let c = input[i];
        let moved = match direction {
            Direction::Encrypt => shift_char(c, shift),
            Direction::Decrypt => unshift_char(c, shift),
        };
        out.push(moved);
        i += 1;
    }
    string_of(&out)
}

/// Shifts `c` by `-shift`, also where `shift` has no negative of its type.
pub fn unshift_char(c: char, shift: i32) -> (r: char)
    ensures
        r == shift_spec(c, -(shift as int)),
{
    if shift == i32::MIN {
        // -2147483648 = -79 * 27183337 - 25, so its negative moves by 25.
        assert(shift_spec(c, 2147483648) == shift_spec(c, 25)) by {
            if crate::utils::shift::in_band(c) {
                let x = c as int - 48;
                vstd::arithmetic::div_mod::lemma_mod_multiples_vanish(27183337, x + 25, 79);
            }
        }
        shift_char(c, 25)
    } else {
        shift_char(c, -shift)
    }
}

/// Decrypting what was encrypted with the same shift gives the message back.
pub proof fn lemma_caesar_round_trip(m: Seq<char>, shift: int)
    ensures
        caesar_spec(
            caesar_spec(m, signed_shift(shift, Direction::Encrypt)),
            signed_shift(shift, Direction::Decrypt),
        ) == m,
{
    let e = caesar_spec(m, shift);
    let d = caesar_spec(e, -shift);
    assert forall|i: int| 0 <= i < m.len() implies d[i] == m[i] by {
        lemma_shift_round_trip(m[i], shift);
    }
    assert(d =~= m);
}

} // verus!
