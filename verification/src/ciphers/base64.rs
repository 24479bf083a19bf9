//! Base64, the standard encoding of bytes in 64 printable symbols. It hides
//! nothing and is here as a utility.
//!
//! A message is read as bytes by taking the low eight bits of each
//! character's code point, and decoded bytes come back as the characters
//! with those code points. Text whose characters all lie below 256 therefore
//! survives the round trip; anything beyond does not.

use vstd::prelude::*;
use crate::ciphers::{CipherError, Direction, view_result};
use crate::text::{chars_of, string_of};

verus! {

/// The byte that stands for `c`: the low eight bits of its code point.
pub open spec fn byte_of(c: char) -> u8 {
    ((c as int) % 256) as u8
}

/// The bytes that stand for the characters of `m`.
pub open spec fn bytes_of(m: Seq<char>) -> Seq<u8> {
    Seq::new(m.len(), |i: int| byte_of(m[i]))
}

/// The symbol for the six-bit number `v`: `A` to `Z`, `a` to `z`, `0` to
/// `9`, `+` and `/`.
pub open spec fn symbol(v: int) -> char {
    if v < 26 {
        (65 + v) as u8 as char
    } else if v < 52 {
        (71 + v) as u8 as char
    } else if v < 62 {
        (v - 4) as u8 as char
    } else if v == 62 {
        '+'
    } else {
        '/'
    }
}

/// Whether `c` is one of the 64 symbols.
pub open spec fn is_symbol(c: char) -> bool {
    ('A' <= c && c <= 'Z') || ('a' <= c && c <= 'z') || ('0' <= c && c <= '9') || c == '+' || c
        == '/'
}

/// The six-bit number that the symbol `c` stands for; 0 where `c` is no
/// symbol.
pub open spec fn sextet(c: char) -> u8 {
    if 'A' <= c && c <= 'Z' {
        (c as int - 65) as u8
    } else if 'a' <= c && c <= 'z' {
        (c as int - 71) as u8
    } else if '0' <= c && c <= '9' {
        (c as int + 4) as u8
    } else if c == '+' {
        62
    } else if c == '/' {
        63
    } else {
        0
    }
}

/// Byte `i` of `b`, or 0 past its end.
pub open spec fn byte_at(b: Seq<u8>, i: int) -> int {
    if 0 <= i < b.len() {
        b[i] as int
    } else {
        0
    }
}

/// Character `j` of the encoding of `b`. Each three bytes give four
/// symbols of six bits each; a last group of one or two bytes is filled up
/// with zero bits and closed with `=` signs.
pub open spec fn encoded_char(b: Seq<u8>, j: int) -> char {
    let g = j / 4;
    let b0 = byte_at(b, 3 * g);
    let b1 = byte_at(b, 3 * g + 1);
    let b2 = byte_at(b, 3 * g + 2);
    if j % 4 == 0 {
        symbol(b0 / 4)
    } else if j % 4 == 1 {
        symbol((b0 % 4) * 16 + b1 / 16)
    } else if j % 4 == 2 {
        if 3 * g + 1 < b.len() {
            symbol((b1 % 16) * 4 + b2 / 64)
        } else {
            '='
        }
    } else {
        if 3 * g + 2 < b.len() {
            symbol(b2 % 64)
        } else {
            '='
        }
    }
}

/// The encoding of the bytes `b`.
pub open spec fn encode_bytes(b: Seq<u8>) -> Seq<char> {
    Seq::new((4 * ((b.len() + 2) / 3)) as nat, |j: int| encoded_char(b, j))
}

/// The Base64 encoding of `m`.
pub open spec fn base64_encode_spec(m: Seq<char>) -> Seq<char> {
    encode_bytes(bytes_of(m))
}

/// Whether `s` holds nothing but symbols and `=` signs.
pub open spec fn well_formed(s: Seq<char>) -> bool {
    forall|i: int| 0 <= i < s.len() ==> is_symbol(#[trigger] s[i]) || s[i] == '='
}

/// The six-bit numbers of the symbols of `s`, in order, every `=` left out
/// wherever it stands.
pub open spec fn sextets_of(s: Seq<char>) -> Seq<u8>
    decreases s.len(),
{
    if s.len() == 0 {
        Seq::empty()
    } else if s.last() == '=' {
        sextets_of(s.drop_last())
    } else {
        sextets_of(s.drop_last()).push(sextet(s.last()))
    }
}

/// Byte `i` of what the six-bit numbers `x` hold.
pub open spec fn decoded_byte(x: Seq<u8>, i: int) -> u8 {
    let g = i / 3;
    if i % 3 == 0 {
        ((x[4 * g] as int % 64) * 4 + x[4 * g + 1] as int / 16) as u8
    } else if i % 3 == 1 {
        ((x[4 * g + 1] as int % 16) * 16 + x[4 * g + 2] as int / 4) as u8
    } else {
        ((x[4 * g + 2] as int % 4) * 64 + x[4 * g + 3] as int % 64) as u8
    }
}

/// The bytes that the six-bit numbers `x` hold: as many whole bytes as
/// their bits fill, the bits left over dropped.
pub open spec fn decode_sextets(x: Seq<u8>) -> Seq<u8> {
    Seq::new(((x.len() * 3) / 4) as nat, |i: int| decoded_byte(x, i))
}

/// The characters whose code points are the bytes `b`.
pub open spec fn chars_of_bytes(b: Seq<u8>) -> Seq<char> {
    Seq::new(b.len(), |i: int| b[i] as char)
}

/// What `s` decodes to: an error if `s` holds anything but symbols and `=`
/// signs, else the characters of the bytes held by its symbols.
pub open spec fn base64_decode_spec(s: Seq<char>) -> Result<Seq<char>, CipherError> {
    if well_formed(s) {
        Ok(chars_of_bytes(decode_sextets(sextets_of(s))))
    } else {
        Err(CipherError::MalformedCiphertext)
    }
}

fn symbol_char(v: u8) -> (c: char)
    requires
        v < 64,
    ensures
        c == symbol(v as int),
{
    if v < 26 {
        (65 + v) as char
    } else if v < 52 {
        (71 + v) as char
    } else if v < 62 {
        (v - 4) as char
    } else if v == 62 {
        '+'
    } else {
        '/'
    }
}

fn symbol_sextet(c: char) -> (r: Option<u8>)
    ensures
        r is Some == is_symbol(c),
        r matches Some(v) ==> v == sextet(c) && v < 64,
{
    if 'A' <= c && c <= 'Z' {
        Some(c as u8 - 65)
    } else if 'a' <= c && c <= 'z' {
        Some(c as u8 - 71)
    } else if '0' <= c && c <= '9' {
        Some(c as u8 + 4)
    } else if c == '+' {
        Some(62)
    } else if c == '/' {
        Some(63)
    } else {
        None
    }
}

fn low_byte(c: char) -> (r: u8)
    ensures
        r == byte_of(c),
{
    let code: u32 = c as u32;
    (code % 256) as u8
}

fn message_bytes(input: &Vec<char>) -> (b: Vec<u8>)
    ensures
        b@ == bytes_of(input@),
{
    let mut b: Vec<u8> = Vec::new();
    let mut i: usize = 0;
    while i < input.len()
        invariant
            i <= input.len(),
            b@.len() == i,
            forall|k: int| 0 <= k < i ==> b@[k] == byte_of(input@[k]),
        decreases input.len() - i,
    {
        b.push(low_byte(input[i]));
        i += 1;
    }
    b
}

/// Encodes `message` in Base64.
pub fn base64_encode(message: &str) -> (result: String)
    ensures
        result@ == base64_encode_spec(message@),
{
    let input = chars_of(message);
    let b = message_bytes(&input);
    let n = b.len();
    let mut out: Vec<char> = Vec::new();
    let mut i: usize = 0;
    while n - i >= 3
        invariant
            i <= n,
            n == b.len(),
            i % 3 == 0,
            out@.len() == 4 * (i / 3),
            forall|j: int| 0 <= j < out@.len() ==> out@[j] == encoded_char(b@, j),
        decreases n - i,
    {
        let b0 = b[i];
        let b1 = b[i + 1];
        let b2 = b[i + 2];
        let ghost g = (i / 3) as int;
        assert(3 * g == i);
        out.push(symbol_char(b0 / 4));
        out.push(symbol_char((b0 % 4) * 16 + b1 / 16));
        out.push(symbol_char((b1 % 16) * 4 + b2 / 64));
        out.push(symbol_char(b2 % 64));
        i += 3;
    }
    if n - i == 1 {
        let b0 = b[i];
        let ghost g = (i / 3) as int;
        assert(3 * g == i);
        out.push(symbol_char(b0 / 4));
        out.push(symbol_char((b0 % 4) * 16));
        out.push('=');
        out.push('=');
    } else if n - i == 2 {
        let b0 = b[i];
        let b1 = b[i + 1];
        let ghost g = (i / 3) as int;
        assert(3 * g == i);
        out.push(symbol_char(b0 / 4));
        out.push(symbol_char((b0 % 4) * 16 + b1 / 16));
        out.push(symbol_char((b1 % 16) * 4));
        out.push('=');
    }
    assert(out@.len() == 4 * ((n + 2) / 3));
    assert(out@ =~= encode_bytes(b@));
    string_of(&out)
}

/// Decodes `message` from Base64. An `=` is passed over wherever it stands,
/// and bits that do not fill a byte are dropped; any character that is
/// neither a symbol nor `=` is an error.
pub fn base64_decode(message: &str) -> (result: Result<String, CipherError>)
    ensures
        view_result(result) == base64_decode_spec(message@),
{
    let input = chars_of(message);
    let mut x: Vec<u8> = Vec::new();
    let mut i: usize = 0;
    while i < input.len()
        invariant
            i <= input.len(),
            input@ == message@,
            well_formed(input@.take(i as int)),
            x@ == sextets_of(input@.take(i as int)),
            x@.len() <= i,
            forall|k: int| 0 <= k < x@.len() ==> x@[k] < 64,
        decreases input.len() - i,
    {
        let c = input[i];
        let ghost next = input@.take(i + 1);
        assert(next.drop_last() =~= input@.take(i as int));
        if c != '=' {
            match symbol_sextet(c) {
                Some(v) => {
                    x.push(v);
                },
                None => {
                    return Err(CipherError::MalformedCiphertext);
                },
            }
        }
        i += 1;
    }
    assert(input@.take(input@.len() as int) =~= input@);
    let len = x.len();
    let count: usize = (len / 4) * 3 + ((len % 4) * 3) / 4;
    let mut out: Vec<char> = Vec::new();
    let mut k: usize = 0;
    while k < count
        invariant
            k <= count,
            count == (len * 3) / 4,
            len == x@.len(),
            forall|t: int| 0 <= t < x@.len() ==> x@[t] < 64,
            out@.len() == k,
            forall|t: int| 0 <= t < k ==> out@[t] == decoded_byte(x@, t) as char,
        decreases count - k,
    {
        let g = k / 3;
        let p = k % 3;
        let byte: u8 = if p == 0 {
            x[4 * g] * 4 + x[4 * g + 1] / 16
        } else if p == 1 {
            (x[4 * g + 1] % 16) * 16 + x[4 * g + 2] / 4
        } else {
            (x[4 * g + 2] % 4) * 64 + x[4 * g + 3]
        };
        out.push(byte as char);
        k += 1;
    }
    assert(out@ =~= chars_of_bytes(decode_sextets(x@)));
    Ok(string_of(&out))
}

/// Encodes or decodes `message` in Base64. Encoding never fails.
pub fn base64_cipher(message: &str, direction: Direction) -> (result: Result<String, CipherError>)
    ensures
        direction == Direction::Encrypt ==> view_result(result) == Ok::<Seq<char>, CipherError>(
            base64_encode_spec(message@),
        ),
        direction == Direction::Decrypt ==> view_result(result) == base64_decode_spec(message@),
{
    match direction {
        Direction::Encrypt => Ok(base64_encode(message)),
        Direction::Decrypt => base64_decode(message),
    }
}

/// Whether `m` holds printable ASCII only: the characters from the blank
/// to `~`.
pub open spec fn is_printable(m: Seq<char>) -> bool {
    forall|i: int| 0 <= i < m.len() ==> ' ' <= #[trigger] m[i] && m[i] <= '~'
}

/// Whether the code point of `c` is below 256.
pub open spec fn below_256(c: char) -> bool {
    (c as int) < 256
}

/// Whether every character of `m` has a code point below 256, so that its
/// byte says which character it is.
pub open spec fn fits_bytes(m: Seq<char>) -> bool {
    forall|i: int| 0 <= i < m.len() ==> below_256(#[trigger] m[i])
}

/// The number of symbols, `=` signs not counted, in the encoding of `n`
/// bytes.
pub open spec fn symbol_count(n: nat) -> nat {
    (4 * (n / 3) + if n % 3 == 0 { 0nat } else { n % 3 + 1 }) as nat
}

/// Each symbol stands for the number it was made from.
pub proof fn lemma_sextet_of_symbol(v: int)
    requires
        0 <= v < 64,
    ensures
        is_symbol(symbol(v)),
        symbol(v) != '=',
        sextet(symbol(v)) == v,
{
}

/// Of a text that is symbols up to place `count` and `=` signs from there
/// on, the six-bit numbers are those of its first `count` characters.
pub proof fn lemma_sextets_of_padded(s: Seq<char>, count: int)
    requires
        0 <= count <= s.len(),
        forall|j: int| 0 <= j < count ==> #[trigger] s[j] != '=',
        forall|j: int| count <= j < s.len() ==> #[trigger] s[j] == '=',
    ensures
        sextets_of(s) == Seq::new(count as nat, |j: int| sextet(s[j])),
    decreases s.len(),
{
    let want = Seq::new(count as nat, |j: int| sextet(s[j]));
    if s.len() == 0 {
        assert(sextets_of(s) =~= want);
    } else {
        let rest = s.drop_last();
        if count == s.len() {
            lemma_sextets_of_padded(rest, count - 1);
            assert(sextets_of(s) =~= want);
        } else {
            lemma_sextets_of_padded(rest, count);
            assert(sextets_of(s) =~= want);
        }
    }
}

/// The encoding of any bytes holds nothing but symbols and `=` signs, the
/// symbols first.
pub proof fn lemma_encoding_shape(b: Seq<u8>)
    ensures
        well_formed(encode_bytes(b)),
        symbol_count(b.len()) <= encode_bytes(b).len(),
        forall|j: int| 0 <= j < symbol_count(b.len()) ==> #[trigger] encode_bytes(b)[j] != '=',
        forall|j: int|
            symbol_count(b.len()) <= j < encode_bytes(b).len() ==> #[trigger] encode_bytes(b)[j]
                == '=',
{
    let e = encode_bytes(b);
    assert forall|j: int| 0 <= j < e.len() implies (is_symbol(#[trigger] e[j]) || e[j] == '=') && (
    j < symbol_count(b.len()) ==> e[j] != '=') && (j >= symbol_count(b.len()) ==> e[j] == '=') by {
        let g = j / 4;
        let b0 = byte_at(b, 3 * g);
        let b1 = byte_at(b, 3 * g + 1);
        let b2 = byte_at(b, 3 * g + 2);
        lemma_sextet_of_symbol(b0 / 4);
        lemma_sextet_of_symbol((b0 % 4) * 16 + b1 / 16);
        lemma_sextet_of_symbol((b1 % 16) * 4 + b2 / 64);
        lemma_sextet_of_symbol(b2 % 64);
    }
}

/// Four six-bit numbers cut from three bytes hold the three bytes.
pub proof fn lemma_group_arithmetic(b0: int, b1: int, b2: int)
    requires
        0 <= b0 < 256,
        0 <= b1 < 256,
        0 <= b2 < 256,
    ensures
        0 <= b0 / 4 < 64,
        0 <= (b0 % 4) * 16 + b1 / 16 < 64,
        0 <= (b1 % 16) * 4 + b2 / 64 < 64,
        0 <= b2 % 64 < 64,
        ((b0 / 4) % 64) * 4 + ((b0 % 4) * 16 + b1 / 16) / 16 == b0,
        (((b0 % 4) * 16 + b1 / 16) % 16) * 16 + ((b1 % 16) * 4 + b2 / 64) / 4 == b1,
        (((b1 % 16) * 4 + b2 / 64) % 4) * 64 + (b2 % 64) % 64 == b2,
{
}

/// Where `x` holds the six-bit numbers of the symbols that encode `b`,
/// byte `i` of what `x` holds is byte `i` of `b`.
pub proof fn lemma_decoded_byte(b: Seq<u8>, x: Seq<u8>, i: int)
    requires
        0 <= i < b.len(),
        x.len() == symbol_count(b.len()),
        forall|j: int| 0 <= j < x.len() ==> #[trigger] x[j] == sextet(encoded_char(b, j)),
    ensures
        decoded_byte(x, i) == b[i],
{
    let g = i / 3;
    let b0 = byte_at(b, 3 * g);
    let b1 = byte_at(b, 3 * g + 1);
    let b2 = byte_at(b, 3 * g + 2);
    lemma_group_arithmetic(b0, b1, b2);
    lemma_sextet_of_symbol(b0 / 4);
    lemma_sextet_of_symbol((b0 % 4) * 16 + b1 / 16);
    lemma_sextet_of_symbol((b1 % 16) * 4 + b2 / 64);
    lemma_sextet_of_symbol(b2 % 64);
    assert(4 * g + 1 < x.len());
    assert(x[4 * g] == sextet(encoded_char(b, 4 * g)));
    assert(x[4 * g + 1] == sextet(encoded_char(b, 4 * g + 1)));
    assert(x[4 * g] as int == b0 / 4);
    assert(x[4 * g + 1] as int == (b0 % 4) * 16 + b1 / 16);
    if i % 3 >= 1 {
        assert(4 * g + 2 < x.len());
        assert(x[4 * g + 2] == sextet(encoded_char(b, 4 * g + 2)));
        assert(x[4 * g + 2] as int == (b1 % 16) * 4 + b2 / 64);
    }
    if i % 3 == 2 {
        assert(4 * g + 3 < x.len());
        assert(x[4 * g + 3] == sextet(encoded_char(b, 4 * g + 3)));
        assert(x[4 * g + 3] as int == b2 % 64);
    }
}

/// Decoding the encoding of bytes gives the bytes back.
pub proof fn lemma_bytes_round_trip(b: Seq<u8>)
    ensures
        well_formed(encode_bytes(b)),
        decode_sextets(sextets_of(encode_bytes(b))) == b,
{
    let e = encode_bytes(b);
    let count = symbol_count(b.len());
    lemma_encoding_shape(b);
    lemma_sextets_of_padded(e, count as int);
    let x = sextets_of(e);
    let d = decode_sextets(x);
    assert forall|i: int| 0 <= i < b.len() implies d[i] == b[i] by {
        lemma_decoded_byte(b, x, i);
    }
}

/// Every character of a message of printable ASCII lies below 256.
pub proof fn lemma_printable_fits_bytes(m: Seq<char>)
    requires
        is_printable(m),
    ensures
        fits_bytes(m),
{
    assert forall|i: int| 0 <= i < m.len() implies below_256(#[trigger] m[i]) by {
        assert(' ' <= m[i] && m[i] <= '~');
    }
}

/// A character below 256 is the character of its byte.
pub proof fn lemma_byte_names_char(c: char)
    requires
        below_256(c),
    ensures
        byte_of(c) as char == c,
{
}

/// Decoding the encoding of a message whose characters all lie below 256
/// gives the message back.
pub proof fn lemma_base64_round_trip(m: Seq<char>)
    requires
        fits_bytes(m),
    ensures
        base64_decode_spec(base64_encode_spec(m)) == Ok::<Seq<char>, CipherError>(m),
{
    let b = bytes_of(m);
    lemma_bytes_round_trip(b);
    assert(chars_of_bytes(b) =~= m) by {
        assert forall|i: int| 0 <= i < m.len() implies chars_of_bytes(b)[i] == m[i] by {
            let c = m[i];
            lemma_byte_names_char(c);
        }
    }
}

} // verus!
