//! The affine cipher: a letter at place `x` of the alphabet goes to place
//! `a * x + b`, counted round the alphabet. Only a multiplier `a` that
//! shares no factor with 26 can be undone, and any other is refused, to
//! encrypt as well as to decrypt.

use vstd::prelude::*;
use crate::ciphers::{CipherError, Direction, view_result};
use crate::text::{char_is_lower, char_is_upper, chars_of, is_lower, is_upper, string_of};

verus! {

/// Whether `a` shares no factor with 26.
pub open spec fn coprime_26(a: int) -> bool {
    a % 2 != 0 && a % 13 != 0
}

/// The number below 26 that undoes a multiplication by `a` round the
/// alphabet; 0 where there is none.
pub open spec fn inverse_26(a: int) -> int {
    let r = a % 26;
    if r == 1 {
        1
    } else if r == 3 {
        9
    } else if r == 5 {
        21
    } else if r == 7 {
        15
    } else if r == 9 {
        3
    } else if r == 11 {
        19
    } else if r == 15 {
        7
    } else if r == 17 {
        23
    } else if r == 19 {
        11
    } else if r == 21 {
        5
    } else if r == 23 {
        17
    } else if r == 25 {
        25
    } else {
        0
    }
}

/// Where the letter at place `x` goes.
pub open spec fn affine_place(x: int, a: int, b: int, direction: Direction) -> int {
    match direction {
        Direction::Encrypt => (a * x + b) % 26,
        Direction::Decrypt => (inverse_26(a) * (x - b)) % 26,
    }
}

/// What becomes of `c`: a letter moves within its own case, every other
/// character stays.
pub open spec fn affine_char(c: char, a: int, b: int, direction: Direction) -> char {
    if is_upper(c) {
        (affine_place(c as int - 65, a, b, direction) + 65) as char
    } else if is_lower(c) {
        (affine_place(c as int - 97, a, b, direction) + 97) as char
    } else {
        c
    }
}

/// What the affine cipher makes of `m`: an error for a multiplier that
/// shares a factor with 26, else the text with every letter moved.
pub open spec fn affine_spec(m: Seq<char>, a: int, b: int, direction: Direction) -> Result<
    Seq<char>,
    CipherError,
> {
    if !coprime_26(a) {
        Err(CipherError::MultiplierNotCoprime)
    } else {
        Ok(Seq::new(m.len(), |i: int| affine_char(m[i], a, b, direction)))
    }
}

/// Whether the product of `a` and `x` leaves 1 when counted round `m`.
pub open spec fn undoes(a: int, x: int, m: int) -> bool {
    (a * x) % m == 1
}

/// `modinverse::modinverse`: for a modulus above 1 and a number from 0 up
/// to the modulus, the number below the modulus whose product with `a`
/// leaves 1, or nothing where no number does.
#[verifier::external_body]
fn modular_inverse(a: i32, m: i32) -> (r: Option<i32>)
    requires
        2 <= m <= 1000,
        0 <= a < m,
    ensures
        r matches Some(x) ==> 0 <= x < m && undoes(a as int, x as int, m as int),
        r is None ==> forall|x: int| 0 <= x < m ==> !#[trigger] undoes(a as int, x, m as int),
{
    modinverse::modinverse(a, m)
}

/// `v` counted round the alphabet.
fn round_26(v: i32) -> (r: i32)
    ensures
        0 <= r < 26,
        r == v % 26,
{
    let rem = v % 26;
    if rem < 0 {
        rem + 26
    } else {
        rem
    }
}

/// The multiplier and the number that undoes it, both below 26, or the
/// reason why the multiplier cannot be used.
fn checked_multiplier(a: i32) -> (r: Result<(i32, i32), CipherError>)
    ensures
        match r {
            Ok((low, inv)) => coprime_26(a as int) && low == a % 26 && inv == inverse_26(a as int),
            Err(e) => !coprime_26(a as int) && e == CipherError::MultiplierNotCoprime,
        },
{
    let low = round_26(a);
    match modular_inverse(low, 26) {
        Some(inv) => {
            proof {
                lemma_inverse_unique(low as int, inv as int);
                lemma_round_keeps(a as int);
            }
            Ok((low, inv))
        },
        None => {
            proof {
                lemma_none_undoes(low as int);
                lemma_round_keeps(a as int);
            }
            Err(CipherError::MultiplierNotCoprime)
        },
    }
}

/// Where the letter at place `x` goes, with the multiplier `a` or its
/// inverse `inv`, and `b`, all below 26.
fn move_place(x: i32, a: i32, inv: i32, b: i32, direction: Direction) -> (r: i32)
    requires
        0 <= x < 26,
        0 <= a < 26,
        0 <= b < 26,
        0 <= inv < 26,
    ensures
        0 <= r < 26,
        direction == Direction::Encrypt ==> r == (a * x + b) % 26,
        direction == Direction::Decrypt ==> r == (inv * (x - b)) % 26,
{
    match direction {
        Direction::Encrypt => {
            assert(0 <= a * x <= 625) by (nonlinear_arith)
                requires
                    0 <= a < 26,
                    0 <= x < 26,
            ;
            (a * x + b) % 26
        },
        Direction::Decrypt => {
            let diff = x - b;
            assert(-650 <= inv * diff <= 650) by (nonlinear_arith)
                requires
                    0 <= inv < 26,
                    -26 < diff < 26,
            ;
            round_26(inv * diff)
        },
    }
}

/// Moves every letter of `message` to the place `a * x + b` round its
/// alphabet, or back from it. A multiplier that shares a factor with 26 is
/// an error.
pub fn affine_cipher(message: &str, a: i32, b: i32, direction: Direction) -> (result: Result<
    String,
    CipherError,
>)
    ensures
        view_result(result) == affine_spec(message@, a as int, b as int, direction),
{
    let (low_a, inv) = match checked_multiplier(a) {
        Ok(pair) => pair,
        Err(e) => {
            return Err(e);
        },
    };
    let low_b = round_26(b);
    let input = chars_of(message);
    let mut out: Vec<char> = Vec::new();
    let mut i: usize = 0;
    while i < input.len()
        invariant
            i <= input.len(),
            0 <= low_a < 26,
            0 <= low_b < 26,
            0 <= inv < 26,
            low_a == a % 26,
            low_b == b % 26,
            inv == inverse_26(a as int),
            out@.len() == i,
            forall|j: int|
                0 <= j < i ==> out@[j] == affine_char(input@[j], a as int, b as int, direction),
        decreases input.len() - i,
    {
        let c = input[i];
        let moved = if char_is_upper(c) {
            let x: i32 = c as u8 as i32 - 65;
            proof {
                lemma_place_round(x as int, a as int, b as int, direction);
            }
            (move_place(x, low_a, inv, low_b, direction) + 65) as u8 as char
        } else if char_is_lower(c) {
            let x: i32 = c as u8 as i32 - 97;
            proof {
                lemma_place_round(x as int, a as int, b as int, direction);
            }
            (move_place(x, low_a, inv, low_b, direction) + 97) as u8 as char
        } else {
            c
        };
        out.push(moved);
        i += 1;
    }
    assert(out@ =~= affine_spec(message@, a as int, b as int, direction)->Ok_0);
    Ok(string_of(&out))
}

/// For a number below 26 that shares no factor with 26, `inverse_26` is a
/// number below 26 whose product with it leaves 1.
pub proof fn lemma_inverse_26(a: int)
    requires
        0 <= a < 26,
    ensures
        0 <= inverse_26(a) < 26,
        coprime_26(a) ==> (a * inverse_26(a)) % 26 == 1,
        coprime_26(a) <==> inverse_26(a) != 0,
{
    if a == 1 {
        assert(a * inverse_26(a) == 1);
    } else if a == 3 {
        assert(a * inverse_26(a) == 27);
    } else if a == 5 {
        assert(a * inverse_26(a) == 105);
    } else if a == 7 {
        assert(a * inverse_26(a) == 105);
    } else if a == 9 {
        assert(a * inverse_26(a) == 27);
    } else if a == 11 {
        assert(a * inverse_26(a) == 209);
    } else if a == 15 {
        assert(a * inverse_26(a) == 105);
    } else if a == 17 {
        assert(a * inverse_26(a) == 391);
    } else if a == 19 {
        assert(a * inverse_26(a) == 209);
    } else if a == 21 {
        assert(a * inverse_26(a) == 105);
    } else if a == 23 {
        assert(a * inverse_26(a) == 391);
    } else if a == 25 {
        assert(a * inverse_26(a) == 625);
    }
}

/// The multipliers from 2 to 26 that share a factor with 26 are refused,
/// whatever the message, the number added and the direction.
pub proof fn lemma_affine_refuses_listed(m: Seq<char>, a: int, b: int, direction: Direction)
    requires
        a == 2 || a == 4 || a == 6 || a == 8 || a == 10 || a == 12 || a == 13 || a == 14 || a == 16
            || a == 18 || a == 20 || a == 22 || a == 24 || a == 26,
    ensures
        affine_spec(m, a, b, direction) == Err::<Seq<char>, CipherError>(
            CipherError::MultiplierNotCoprime,
        ),
{
}

/// A multiplier is accepted exactly when some number below 26 undoes it
/// round the alphabet.
pub proof fn lemma_affine_accepts_invertible(m: Seq<char>, a: int, b: int, direction: Direction)
    ensures
        affine_spec(m, a, b, direction) is Ok <==> exists|x: int|
            0 <= x < 26 && #[trigger] undoes(a % 26, x, 26),
{
    let low = a % 26;
    lemma_round_keeps(a);
    lemma_inverse_26(low);
    if coprime_26(a) {
        assert(undoes(low, inverse_26(low), 26));
    } else {
        assert forall|x: int| 0 <= x < 26 implies !#[trigger] undoes(low, x, 26) by {
            if undoes(low, x, 26) {
                lemma_inverse_unique(low, x);
            }
        }
    }
}

/// Whether `a` shares a factor with 26, and what undoes it, depend on `a`
/// only by what it leaves round the alphabet.
pub proof fn lemma_round_keeps(a: int)
    ensures
        coprime_26(a % 26) == coprime_26(a),
        inverse_26(a % 26) == inverse_26(a),
{
}

/// Where no number below 26 undoes `a`, `a` shares a factor with 26.
pub proof fn lemma_none_undoes(a: int)
    requires
        0 <= a < 26,
        forall|x: int| 0 <= x < 26 ==> !#[trigger] undoes(a, x, 26),
    ensures
        !coprime_26(a),
{
    lemma_inverse_26(a);
    assert(!undoes(a, inverse_26(a), 26));
}

/// No other number below 26 undoes a multiplication by `a`, and none at
/// all does where `a` shares a factor with 26.
pub proof fn lemma_inverse_unique(a: int, x: int)
    requires
        0 <= a < 26,
        0 <= x < 26,
        (a * x) % 26 == 1,
    ensures
        coprime_26(a),
        x == inverse_26(a),
{
    lemma_inverse_26(a);
    let inv = inverse_26(a);
    if a % 2 == 0 {
        let h = a / 2;
        assert(a * x == 2 * (h * x)) by (nonlinear_arith)
            requires
                a == 2 * h,
        ;
        assert((2 * (h * x)) % 26 != 1);
    } else if a % 13 == 0 {
        let h = a / 13;
        assert(a * x == 13 * (h * x)) by (nonlinear_arith)
            requires
                a == 13 * h,
        ;
        assert((13 * (h * x)) % 26 != 1);
    } else {
        // x = x * (a * inv) = (x * a) * inv = inv, all round the alphabet.
        lemma_product_round(inv, a * x, 1);
        lemma_product_round(x, a * inv, 1);
        assert(inv * (a * x) == x * (a * inv)) by (nonlinear_arith);
        assert(inv * 1 == inv && x * 1 == x);
    }
}

/// Two numbers that leave the same round the alphabet still do so once
/// multiplied by `k`.
pub proof fn lemma_product_round(k: int, u: int, v: int)
    requires
        u % 26 == v % 26,
    ensures
        (k * u) % 26 == (k * v) % 26,
{
    vstd::arithmetic::div_mod::lemma_mul_mod_noop_right(k, u, 26);
    vstd::arithmetic::div_mod::lemma_mul_mod_noop_right(k, v, 26);
}

/// The place a letter goes to depends on `a` and `b` only by what they
/// leave round the alphabet.
pub proof fn lemma_place_round(x: int, a: int, b: int, direction: Direction)
    ensures
        affine_place(x, a, b, direction) == affine_place(x, a % 26, b % 26, direction),
        (inverse_26(a) * (x - b)) % 26 == (inverse_26(a) * (x - b % 26)) % 26,
        (a * x + b) % 26 == ((a % 26) * x + b % 26) % 26,
{
    let inv = inverse_26(a);
    lemma_product_round(inv, x - b, x - b % 26);
    vstd::arithmetic::div_mod::lemma_mul_mod_noop_left(a, x, 26);
    vstd::arithmetic::div_mod::lemma_mul_mod_noop_left(a % 26, x, 26);
    vstd::arithmetic::div_mod::lemma_add_mod_noop(a * x, b, 26);
    vstd::arithmetic::div_mod::lemma_add_mod_noop((a % 26) * x, b % 26, 26);
    vstd::arithmetic::div_mod::lemma_mod_twice(b, 26);
    vstd::arithmetic::div_mod::lemma_mod_twice(a, 26);
}

/// Moving a place on and back gives the place.
pub proof fn lemma_affine_place_round_trip(x: int, a: int, b: int)
    requires
        0 <= x < 26,
        coprime_26(a),
    ensures
        affine_place(affine_place(x, a, b, Direction::Encrypt), a, b, Direction::Decrypt) == x,
{
    let inv = inverse_26(a);
    let y = (a * x + b) % 26;
    lemma_inverse_26(a % 26);
    assert(inverse_26(a % 26) == inv);
    // y - b leaves what a * x leaves, so inv * (y - b) leaves what
    // inv * a * x leaves, which is what x leaves.
    assert((y - b) % 26 == (a * x) % 26) by {
        vstd::arithmetic::div_mod::lemma_fundamental_div_mod(a * x + b, 26);
        let q = (a * x + b) / 26;
        assert(y - b == a * x + 26 * (-q));
        vstd::arithmetic::div_mod::lemma_mod_multiples_vanish(-q, a * x, 26);
    }
    lemma_product_round(inv, y - b, a * x);
    assert(inv * (a * x) == x * (a * inv)) by (nonlinear_arith);
    vstd::arithmetic::div_mod::lemma_mul_mod_noop_left(a, inv, 26);
    assert((a * inv) % 26 == 1);
    lemma_product_round(x, a * inv, 1);
    assert(x * 1 == x);
}

/// Decrypting with the numbers it was encrypted with gives the message
/// back.
pub proof fn lemma_affine_round_trip(m: Seq<char>, a: int, b: int)
    requires
        coprime_26(a),
    ensures
        affine_spec(m, a, b, Direction::Encrypt) is Ok,
        affine_spec(affine_spec(m, a, b, Direction::Encrypt)->Ok_0, a, b, Direction::Decrypt)
            == Ok::<Seq<char>, CipherError>(m),
{
    let e = affine_spec(m, a, b, Direction::Encrypt)->Ok_0;
    let d = affine_spec(e, a, b, Direction::Decrypt)->Ok_0;
    assert forall|i: int| 0 <= i < m.len() implies d[i] == m[i] by {
        lemma_affine_char_round_trip(m[i], a, b);
    }
    assert(d =~= m);
}

/// Decrypting a character with the numbers it was encrypted with gives it
/// back.
pub proof fn lemma_affine_char_round_trip(c: char, a: int, b: int)
    requires
        coprime_26(a),
    ensures
        affine_char(affine_char(c, a, b, Direction::Encrypt), a, b, Direction::Decrypt) == c,
{
    if is_upper(c) {
        lemma_affine_place_round_trip(c as int - 65, a, b);
    } else if is_lower(c) {
        lemma_affine_place_round_trip(c as int - 97, a, b);
    }
}

} // verus!
