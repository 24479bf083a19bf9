//! The Baconian cipher in its numeric dress: each letter becomes five
//! digits, a digit from `0` to `6` standing for a zero bit and a digit from
//! `7` to `9` for a one bit. Which digit of its range is written is left to
//! chance, so one message has many encodings; decoding looks at nothing but
//! the threshold.

use vstd::prelude::*;
use crate::ciphers::{CipherError, Direction, view_result};
use crate::text::{
    char_is_digit, char_is_lower, char_is_space, char_is_upper, chars_of, is_digit, is_letter,
    is_space, letter_index, lower_seq, string_of, to_lower,
};

verus! {

/// The weight of bit `j` of a five-bit number, the leftmost bit being bit 0.
pub open spec fn bit_weight(j: int) -> int {
    if j == 0 {
        16
    } else if j == 1 {
        8
    } else if j == 2 {
        4
    } else if j == 3 {
        2
    } else {
        1
    }
}

/// Whether bit `j` of the five-bit number `v` is set.
pub open spec fn bacon_bit(v: int, j: int) -> bool {
    (v / bit_weight(j)) % 2 == 1
}

/// Whether the digit `d` stands for a one bit.
pub open spec fn digit_is_one(d: char) -> bool {
    '7' <= d && d <= '9'
}

/// Whether `g` is a run of five digits that spells the number `v`.
pub open spec fn is_group_of(v: int, g: Seq<char>) -> bool {
    &&& g.len() == 5
    &&& forall|j: int| 0 <= j < 5 ==> is_digit(#[trigger] g[j]) && (digit_is_one(g[j]) == bacon_bit(v, j))
}

/// Whether `out` is an encoding of `m`: for each letter of `m` in turn a
/// group of five digits that spells the letter's place in the alphabet, and
/// every other character of `m` itself.
pub open spec fn bacon_encodes(m: Seq<char>, out: Seq<char>) -> bool
    decreases m.len(),
{
    if m.len() == 0 {
        out.len() == 0
    } else if is_letter(m.last()) {
        &&& out.len() >= 5
        &&& is_group_of(letter_index(m.last()), out.skip(out.len() - 5))
        &&& bacon_encodes(m.drop_last(), out.take(out.len() - 5))
    } else {
        &&& out.len() >= 1
        &&& out.last() == m.last()
        &&& bacon_encodes(m.drop_last(), out.drop_last())
    }
}

/// Where a decoder stands after reading some characters.
pub struct BaconScan {
    /// How many digits of the group under way have been read, from 0 to 4.
    pub count: int,
    /// The number that those digits spell so far.
    pub value: int,
    /// The text decoded so far.
    pub text: Seq<char>,
    /// Whether every character read was a digit or white space.
    pub ok: bool,
}

/// A decoder that has read nothing.
pub open spec fn scan_start() -> BaconScan {
    BaconScan { count: 0, value: 0, text: Seq::empty(), ok: true }
}

/// The character that the five-bit number `v` decodes to.
pub open spec fn bacon_letter(v: int) -> char {
    ((97 + v) as u8) as char
}

/// The decoder after reading `c`. White space goes to the text as it is,
/// also in the middle of a group; a digit adds its bit to the group under
/// way, and the fifth digit of a group puts the group's letter to the text;
/// any other character spoils the decoding.
pub open spec fn scan_step(st: BaconScan, c: char) -> BaconScan {
    if is_space(c) {
        BaconScan { text: st.text.push(c), ..st }
    } else if is_digit(c) {
        let value = if digit_is_one(c) {
            st.value + bit_weight(st.count)
        } else {
            st.value
        };
        if st.count == 4 {
            BaconScan { count: 0, value: 0, text: st.text.push(bacon_letter(value)), ok: st.ok }
        } else {
            BaconScan { count: st.count + 1, value: value, text: st.text, ok: st.ok }
        }
    } else {
        BaconScan { ok: false, ..st }
    }
}

/// The decoder after reading all of `s`.
pub open spec fn scan_all(s: Seq<char>) -> BaconScan
    decreases s.len(),
{
    if s.len() == 0 {
        scan_start()
    } else {
        scan_step(scan_all(s.drop_last()), s.last())
    }
}

/// What `s` decodes to: an error if `s` holds anything but digits and white
/// space, else the decoded text. Digits left over at the end, fewer than
/// five, decode to nothing.
pub open spec fn bacon_decode_spec(s: Seq<char>) -> Result<Seq<char>, CipherError> {
    let st = scan_all(s);
    if st.ok {
        Ok(st.text)
    } else {
        Err(CipherError::MalformedCiphertext)
    }
}

/// `rand::Rng::gen_range` on the thread's generator: some number from `low`
/// up to, not including, `high`. Nothing else is known of it.
#[verifier::external_body]
fn random_digit(low: u8, high: u8) -> (r: u8)
    requires
        low < high,
    ensures
        low <= r < high,
{
    rand::Rng::gen_range(&mut rand::thread_rng(), low..high)
}

/// The character of the digit `d`.
fn digit_char(d: u8) -> (c: char)
    requires
        d <= 9,
    ensures
        c as int == 48 + d,
        is_digit(c),
        digit_is_one(c) == (d >= 7),
{
    (48 + d) as char
}

/// Appends to `out` five digits that spell `v`, each drawn at random from
/// the range of its bit.
fn push_group(out: &mut Vec<char>, v: u8)
    requires
        v < 26,
    ensures
        final(out)@.len() == old(out)@.len() + 5,
        final(out)@.take(old(out)@.len() as int) == old(out)@,
        is_group_of(v as int, final(out)@.skip(old(out)@.len() as int)),
{
    let ghost before = out@;
    let mut j: u8 = 0;
    let mut weight: u8 = 16;
    while j < 5
        invariant
            j <= 5,
            v < 26,
            j < 5 ==> weight == bit_weight(j as int),
            out@.len() == before.len() + j,
            out@.take(before.len() as int) == before,
            forall|k: int|
                0 <= k < j ==> is_digit(#[trigger] out@[before.len() + k]) && (digit_is_one(
                    out@[before.len() + k],
                ) == bacon_bit(v as int, k)),
        decreases 5 - j,
    {
        let bit = (v / weight) % 2 == 1;
        let d = if bit {
            random_digit(7, 10)
        } else {
            random_digit(0, 7)
        };
        let ghost prev = out@;
        out.push(digit_char(d));
        assert(out@.take(before.len() as int) =~= prev.take(before.len() as int));
        j += 1;
        if j < 5 {
            weight = weight / 2;
        }
    }
    let ghost group = out@.skip(before.len() as int);
    assert forall|k: int| 0 <= k < 5 implies is_digit(#[trigger] group[k]) && (digit_is_one(
        group[k],
    ) == bacon_bit(v as int, k)) by {
        assert(group[k] == out@[before.len() + k]);
    }
}

/// Encodes `message`: five random digits for each letter, every other
/// character as it is.
pub fn baconian_encode(message: &str) -> (result: String)
    ensures
        bacon_encodes(message@, result@),
{
    let input = chars_of(message);
    let mut out: Vec<char> = Vec::new();
    let mut i: usize = 0;
    while i < input.len()
        invariant
            i <= input.len(),
            bacon_encodes(input@.take(i as int), out@),
        decreases input.len() - i,
    {
        let c = input[i];
        let ghost prev = out@;
        let ghost next = input@.take(i + 1);
        assert(next.drop_last() =~= input@.take(i as int));
        if char_is_upper(c) {
            push_group(&mut out, c as u8 - 65);
        } else if char_is_lower(c) {
            push_group(&mut out, c as u8 - 97);
        } else {
            out.push(c);
            assert(out@.drop_last() =~= prev);
        }
        i += 1;
    }
    assert(input@.take(input@.len() as int) =~= input@);
    string_of(&out)
}

/// Decodes `message`: an error if it holds anything but digits and white
/// space, else the letters that its groups of five digits spell, with the
/// white space between them.
pub fn baconian_decode(message: &str) -> (result: Result<String, CipherError>)
    ensures
        view_result(result) == bacon_decode_spec(message@),
{
    let input = chars_of(message);
    let mut out: Vec<char> = Vec::new();
    let mut count: u8 = 0;
    let mut value: u8 = 0;
    let mut weight: u8 = 16;
    let mut i: usize = 0;
    while i < input.len()
        invariant
            i <= input.len(),
            input@ == message@,
            count <= 4,
            weight == bit_weight(count as int),
            0 <= value < 32,
            value + 2 * weight <= 32,
            scan_all(input@.take(i as int)) == (BaconScan {
                count: count as int,
                value: value as int,
                text: out@,
                ok: true,
            }),
        decreases input.len() - i,
    {
        let c = input[i];
        let ghost next = input@.take(i + 1);
        assert(next.drop_last() =~= input@.take(i as int));
        if char_is_space(c) {
            out.push(c);
        } else if char_is_digit(c) {
            if c >= '7' {
                value = value + weight;
            }
            if count == 4 {
                out.push((97 + value) as char);
                count = 0;
                value = 0;
                weight = 16;
            } else {
                count += 1;
                weight = weight / 2;
            }
        } else {
            proof {
                lemma_spoiled_stays(next, input@);
            }
            return Err(CipherError::MalformedCiphertext);
        }
        i += 1;
    }
    assert(input@.take(input@.len() as int) =~= input@);
    Ok(string_of(&out))
}

/// Encodes or decodes `message`. Encoding never fails. Decoding fails on
/// any character that is neither a digit nor white space.
pub fn baconian_cipher(message: &str, direction: Direction) -> (result: Result<String, CipherError>)
    ensures
        direction == Direction::Encrypt ==> result is Ok && bacon_encodes(
            message@,
            result->Ok_0@,
        ),
        direction == Direction::Decrypt ==> view_result(result) == bacon_decode_spec(message@),
{
    match direction {
        Direction::Encrypt => Ok(baconian_encode(message)),
        Direction::Decrypt => baconian_decode(message),
    }
}

/// Once a prefix of a text has spoiled the decoder, the whole text has.
pub proof fn lemma_spoiled_stays(prefix: Seq<char>, s: Seq<char>)
    requires
        prefix.len() <= s.len(),
        prefix == s.take(prefix.len() as int),
        !scan_all(prefix).ok,
    ensures
        !scan_all(s).ok,
    decreases s.len() - prefix.len(),
{
    if prefix.len() < s.len() {
        let longer = s.take(prefix.len() as int + 1);
        assert(longer.drop_last() =~= prefix);
        lemma_spoiled_stays(longer, s);
    } else {
        assert(s =~= prefix);
    }
}

/// Whether `m` holds nothing but letters and white space.
pub open spec fn letters_and_spaces(m: Seq<char>) -> bool {
    forall|i: int| 0 <= i < m.len() ==> is_letter(#[trigger] m[i]) || is_space(m[i])
}

/// Reading one more character moves the decoder by one step.
pub proof fn lemma_scan_push(s: Seq<char>, c: char)
    ensures
        scan_all(s.push(c)) == scan_step(scan_all(s), c),
{
    assert(s.push(c).drop_last() =~= s);
}

/// The bits of a five-bit number, each with its weight, add up to it.
pub proof fn lemma_bits_sum(v: int)
    requires
        0 <= v < 32,
    ensures
        (if bacon_bit(v, 0) { 16int } else { 0 }) + (if bacon_bit(v, 1) { 8int } else { 0 }) + (
        if bacon_bit(v, 2) { 4int } else { 0 }) + (if bacon_bit(v, 3) { 2int } else { 0 }) + (
        if bacon_bit(v, 4) { 1int } else { 0 }) == v,
{
}

/// A decoder at the start of a group that reads a group spelling `v` puts
/// the letter of `v` to its text and stands at the start of a group again.
pub proof fn lemma_scan_group(s: Seq<char>, g: Seq<char>, v: int)
    requires
        0 <= v < 26,
        is_group_of(v, g),
        scan_all(s).count == 0,
        scan_all(s).value == 0,
    ensures
        scan_all(s + g) == (BaconScan {
            count: 0,
            value: 0,
            text: scan_all(s).text.push(bacon_letter(v)),
            ok: scan_all(s).ok,
        }),
{
    let s1 = s.push(g[0]);
    let s2 = s1.push(g[1]);
    let s3 = s2.push(g[2]);
    let s4 = s3.push(g[3]);
    let s5 = s4.push(g[4]);
    assert(s5 =~= s + g);
    lemma_scan_push(s, g[0]);
    lemma_scan_push(s1, g[1]);
    lemma_scan_push(s2, g[2]);
    lemma_scan_push(s3, g[3]);
    lemma_scan_push(s4, g[4]);
    lemma_bits_sum(v);
}

/// Every encoding of a message of letters and white space decodes to the
/// message in lower case, whichever digits chance wrote.
pub proof fn lemma_baconian_round_trip(m: Seq<char>, out: Seq<char>)
    requires
        letters_and_spaces(m),
        bacon_encodes(m, out),
    ensures
        scan_all(out) == (BaconScan { count: 0, value: 0, text: lower_seq(m), ok: true }),
        bacon_decode_spec(out) == Ok::<Seq<char>, CipherError>(lower_seq(m)),
    decreases m.len(),
{
    if m.len() == 0 {
        assert(lower_seq(m) =~= Seq::<char>::empty());
    } else {
        let c = m.last();
        let rest = m.drop_last();
        assert(lower_seq(m) =~= lower_seq(rest).push(to_lower(c)));
        if is_letter(c) {
            let head = out.take(out.len() - 5);
            let group = out.skip(out.len() - 5);
            lemma_baconian_round_trip(rest, head);
            lemma_scan_group(head, group, letter_index(c));
            assert(head + group =~= out);
        } else {
            let head = out.drop_last();
            lemma_baconian_round_trip(rest, head);
            lemma_scan_push(head, c);
        }
    }
}

} // verus!
