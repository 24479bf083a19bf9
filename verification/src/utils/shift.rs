//! The wrap-around shift over the band of 79 characters from `0` to `~`.

use vstd::prelude::*;

verus! {

/// The first ordinal of the band, that of `0`.
pub const BAND_START: u32 = 48;

/// The last ordinal of the band, that of `~`.
pub const BAND_END: u32 = 126;

/// The number of characters in the band.
pub const BAND_SIZE: u32 = 79;

/// Whether `c` lies in the band that the shift moves.
pub open spec fn in_band(c: char) -> bool {
    48 <= c as int <= 126
}

/// `c` moved by `delta` places round the band; a character outside the band
/// stays as it is.
pub open spec fn shift_spec(c: char, delta: int) -> char {
    if in_band(c) {
        (((c as int - 48 + delta) % 79) + 48) as char
    } else {
        c
    }
}

/// Shifts `c` by `shift` places round the band `0` to `~`, leaving every
/// character outside the band untouched.
pub fn shift_char(c: char, shift: i32) -> (r: char)
    ensures
        r == shift_spec(c, shift as int),
{
    let n: u32 = c as u32;
    if n < BAND_START || n > BAND_END {
        return c;
    }
    let size = BAND_SIZE as i64;
    let moved: i64 = n as i64 - BAND_START as i64 + shift as i64;
    let rem: i64 = moved % size;
    let wrapped: i64 = if rem < 0 {
        rem + size
    } else {
        rem
    };
    let code: u8 = (wrapped + BAND_START as i64) as u8;
    code as char
}

/// A shifted character is in the band exactly when the character was.
pub proof fn lemma_shift_keeps_band(c: char, delta: int)
    ensures
        in_band(shift_spec(c, delta)) == in_band(c),
{
}

/// Shifting by `delta` and then by `-delta` gives the character back.
pub proof fn lemma_shift_round_trip(c: char, delta: int)
    ensures
        shift_spec(shift_spec(c, delta), -delta) == c,
{
    if in_band(c) {
        let x = c as int - 48;
        let y = (x + delta) % 79;
        assert((y - delta) % 79 == x) by {
            vstd::arithmetic::div_mod::lemma_fundamental_div_mod(x + delta, 79);
            let q = (x + delta) / 79;
            vstd::arithmetic::div_mod::lemma_mod_multiples_vanish(-q, x, 79);
        }
    }
}

} // verus!
