//! A substitution on the Polybius square: the letters `a` to `y` stand in
//! a grid of five rows of five, and each is replaced by the letter one row
//! below it, the last row going round to the first. An upper-case letter
//! moves in the same way and stays upper case. The letter `z` has no place
//! in the grid and stays as it is, in either case.

use vstd::prelude::*;
use crate::ciphers::Direction;
use crate::text::{chars_of, string_of};

verus! {

/// How many places along the grid, read row by row, a direction moves a
/// letter: one row on to encrypt, which is five places, and one row back to
/// decrypt, which round the grid is twenty.
pub open spec fn grid_step(direction: Direction) -> int {
    match direction {
        Direction::Encrypt => 5,
        Direction::Decrypt => 20,
    }
}

/// What becomes of `c`: a letter from `a` to `y` or from `A` to `Y` moves
/// one row within its own case, and every other character stays.
pub open spec fn polybius_char(c: char, direction: Direction) -> char {
    if 'a' <= c && c <= 'y' {
        ((c as int - 97 + grid_step(direction)) % 25 + 97) as char
    } else if 'A' <= c && c <= 'Y' {
        ((c as int - 65 + grid_step(direction)) % 25 + 65) as char
    } else {
        c
    }
}

/// `m` with every character put through the grid.
pub open spec fn polybius_spec(m: Seq<char>, direction: Direction) -> Seq<char> {
    Seq::new(m.len(), |i: int| polybius_char(m[i], direction))
}

fn grid_char(c: char, direction: Direction) -> (r: char)
    ensures
        r == polybius_char(c, direction),
{
    let step: u8 = match direction {
        Direction::Encrypt => 5,
        Direction::Decrypt => 20,
    };
    if 'a' <= c && c <= 'y' {
        ((c as u8 - 97 + step) % 25 + 97) as char
    } else if 'A' <= c && c <= 'Y' {
        ((c as u8 - 65 + step) % 25 + 65) as char
    } else {
        c
    }
}

/// Replaces each letter from `a` to `y`, in either case, by the letter one
/// row below it in the grid, or one row above it to decrypt.
pub fn polybius_cipher(message: &str, direction: Direction) -> (result: String)
    ensures
        result@ == polybius_spec(message@, direction),
{
    let input = chars_of(message);
    let mut out: Vec<char> = Vec::new();
    let mut i: usize = 0;
    while i < input.len()
        invariant
            i <= input.len(),
            out@.len() == i,
            forall|j: int| 0 <= j < i ==> out@[j] == polybius_char(input@[j], direction),
        decreases input.len() - i,
    {
        out.push(grid_char(input[i], direction));
        i += 1;
    }
    string_of(&out)
}

/// Moving a character one row on and one row back gives the character.
pub proof fn lemma_polybius_char_round_trip(c: char)
    ensures
        polybius_char(polybius_char(c, Direction::Encrypt), Direction::Decrypt) == c,
{
}

/// Decrypting what was encrypted gives the message back.
pub proof fn lemma_polybius_round_trip(m: Seq<char>)
    ensures
        polybius_spec(polybius_spec(m, Direction::Encrypt), Direction::Decrypt) == m,
{
    let d = polybius_spec(polybius_spec(m, Direction::Encrypt), Direction::Decrypt);
    assert forall|i: int| 0 <= i < m.len() implies d[i] == m[i] by {
        lemma_polybius_char_round_trip(m[i]);
    }
    assert(d =~= m);
}

} // verus!
