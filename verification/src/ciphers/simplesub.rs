//! Simple substitution under an alphabet shuffled from a seed: each letter
//! is replaced by the letter that stands at its place in the shuffled
//! alphabet. An upper-case letter goes through the same alphabet and stays
//! upper case. The same seed always gives the same alphabet.

use vstd::prelude::*;
use crate::ciphers::Direction;
use crate::text::{
    char_is_lower, char_is_upper, chars_of, is_lower, is_upper, lower_char, string_of, to_lower,
    to_upper, upper_char,
};

verus! {

/// The letters `a` to `z` in their order.
pub open spec fn alphabet() -> Seq<char> {
    Seq::new(26, |i: int| (97 + i) as u8 as char)
}

/// Whether `p` holds each of the letters `a` to `z` once.
pub open spec fn is_letter_permutation(p: Seq<char>) -> bool {
    &&& p.len() == 26
    &&& forall|i: int| 0 <= i < 26 ==> is_lower(#[trigger] p[i])
    &&& p.no_duplicates()
}

/// What the generator seeded with `seed` makes of `letters` when it
/// shuffles them.
pub uninterp spec fn seeded_shuffle(letters: Seq<char>, seed: Seq<char>) -> Seq<char>;

/// The place among the first `n` characters of `p` at which `c` stands; 0
/// where it stands at none.
pub open spec fn position_of(p: Seq<char>, c: char, n: int) -> int
    decreases n,
{
    if n <= 0 {
        0
    } else if p[n - 1] == c {
        n - 1
    } else {
        position_of(p, c, n - 1)
    }
}

/// What becomes of `c` under the shuffled alphabet `p`. A lower-case
/// letter is replaced by the letter at its place in `p` to encrypt, or by
/// the letter whose place in `p` it holds to decrypt. An upper-case letter
/// is replaced as its lower-case form is, and the outcome put in upper case.
/// Every other character stays.
pub open spec fn simplesub_char(c: char, p: Seq<char>, direction: Direction) -> char {
    if is_lower(c) {
        match direction {
            Direction::Encrypt => p[c as int - 97],
            Direction::Decrypt => (97 + position_of(p, c, 26)) as u8 as char,
        }
    } else if is_upper(c) {
        match direction {
            Direction::Encrypt => to_upper(p[c as int - 65]),
            Direction::Decrypt => (65 + position_of(p, to_lower(c), 26)) as u8 as char,
        }
    } else {
        c
    }
}

/// `m` with every character put through the shuffled alphabet `p`.
pub open spec fn simplesub_spec(m: Seq<char>, p: Seq<char>, direction: Direction) -> Seq<char> {
    Seq::new(m.len(), |i: int| simplesub_char(m[i], p, direction))
}

/// `rand::seq::SliceRandom::shuffle` under a `rand_pcg::Pcg64` that
/// `rand_seeder::Seeder` made from `seed`. The shuffle only swaps, so the
/// letters afterwards are the letters before in another order; which order
/// depends on the letters and the seed alone.
#[verifier::external_body]
fn shuffle_with_seed(letters: &mut Vec<char>, seed: &str)
    ensures
        final(letters)@ == seeded_shuffle(old(letters)@, seed@),
        final(letters)@.to_multiset() == old(letters)@.to_multiset(),
{
    let mut rng: rand_pcg::Pcg64 = rand_seeder::Seeder::from(seed).make_rng();
    rand::seq::SliceRandom::shuffle(letters.as_mut_slice(), &mut rng);
}

/// The letters `a` to `z` in their order.
fn plain_alphabet() -> (v: Vec<char>)
    ensures
        v@ == alphabet(),
{
    let mut v: Vec<char> = Vec::new();
    let mut i: u8 = 0;
    while i < 26
        invariant
            i <= 26,
            v@.len() == i,
            forall|k: int| 0 <= k < i ==> v@[k] == (97 + k) as u8 as char,
        decreases 26 - i,
    {
        v.push((97 + i) as char);
        i += 1;
    }
    v
}

/// The alphabet that `seed` shuffles to.
pub fn shuffled_alphabet(seed: &str) -> (p: Vec<char>)
    ensures
        p@ == seeded_shuffle(alphabet(), seed@),
        is_letter_permutation(p@),
{
    let mut p = plain_alphabet();
    shuffle_with_seed(&mut p, seed);
    proof {
        lemma_reordered_alphabet(p@);
    }
    p
}

/// The place in `p` at which `low` stands; 0 where it stands at none.
fn place_in(p: &Vec<char>, low: char) -> (found: u8)
    requires
        p@.len() == 26,
    ensures
        found < 26,
        found == position_of(p@, low, 26),
{
    let mut found: u8 = 0;
    let mut k: u8 = 0;
    while k < 26
        invariant
            k <= 26,
            p@.len() == 26,
            found < 26,
            found == position_of(p@, low, k as int),
        decreases 26 - k,
    {
        if p[k as usize] == low {
            found = k;
        }
        k += 1;
    }
    found
}

fn substitute(c: char, p: &Vec<char>, direction: Direction) -> (r: char)
    requires
        p@.len() == 26,
    ensures
        r == simplesub_char(c, p@, direction),
{
    if char_is_lower(c) {
        match direction {
            Direction::Encrypt => p[(c as u8 - 97) as usize],
            Direction::Decrypt => (97 + place_in(p, c)) as char,
        }
    } else if char_is_upper(c) {
        match direction {
            Direction::Encrypt => upper_char(p[(c as u8 - 65) as usize]),
            Direction::Decrypt => (65 + place_in(p, lower_char(c))) as char,
        }
    } else {
        c
    }
}

/// Substitutes under the shuffled alphabet `letters`, which has to hold
/// each of `a` to `z` once.
pub fn simplesub_with_alphabet(message: &str, letters: &Vec<char>, direction: Direction) -> (result:
    String)
    requires
        is_letter_permutation(letters@),
    ensures
        result@ == simplesub_spec(message@, letters@, direction),
{
    let input = chars_of(message);
    let mut out: Vec<char> = Vec::new();
    let mut i: usize = 0;
    while i < input.len()
        invariant
            i <= input.len(),
            letters@.len() == 26,
            out@.len() == i,
            forall|j: int| 0 <= j < i ==> out@[j] == simplesub_char(input@[j], letters@, direction),
        decreases input.len() - i,
    {
        out.push(substitute(input[i], letters, direction));
        i += 1;
    }
    string_of(&out)
}

/// Substitutes each letter of `message` under the alphabet that `seed`
/// shuffles to, keeping its case.
pub fn simplesub_cipher(message: &str, seed: &str, direction: Direction) -> (result: String)
    ensures
        result@ == simplesub_spec(message@, seeded_shuffle(alphabet(), seed@), direction),
        is_letter_permutation(seeded_shuffle(alphabet(), seed@)),
{
    let letters = shuffled_alphabet(seed);
    simplesub_with_alphabet(message, &letters, direction)
}

/// The alphabet holds each of `a` to `z` once.
pub proof fn lemma_alphabet_is_permutation()
    ensures
        is_letter_permutation(alphabet()),
{
}

/// Letters that are the alphabet in another order hold each of `a` to `z`
/// once.
pub proof fn lemma_reordered_alphabet(p: Seq<char>)
    requires
        p.to_multiset() == alphabet().to_multiset(),
    ensures
        is_letter_permutation(p),
{
    broadcast use vstd::multiset::group_multiset_axioms;

    let a = alphabet();
    lemma_alphabet_is_permutation();
    vstd::seq_lib::to_multiset_len(p);
    vstd::seq_lib::to_multiset_len(a);
    a.lemma_multiset_has_no_duplicates();
    p.lemma_multiset_has_no_duplicates_conv();
    assert forall|i: int| 0 <= i < 26 implies is_lower(#[trigger] p[i]) by {
        let c = p[i];
        assert(p.contains(c));
        vstd::seq_lib::to_multiset_contains(p, c);
        vstd::seq_lib::to_multiset_contains(a, c);
        let j = choose|j: int| 0 <= j < a.len() && a[j] == c;
        assert(a[j] == c);
    }
}

/// A letter of a shuffled alphabet stands at one place only.
pub proof fn lemma_position_of(p: Seq<char>, k: int, n: int)
    requires
        p.no_duplicates(),
        0 <= k < n <= p.len(),
    ensures
        position_of(p, p[k], n) == k,
    decreases n,
{
    if n - 1 != k {
        lemma_position_of(p, k, n - 1);
    }
}

/// Decrypting a character under the alphabet it was encrypted under gives
/// the character.
pub proof fn lemma_simplesub_char_round_trip(c: char, p: Seq<char>)
    requires
        is_letter_permutation(p),
    ensures
        simplesub_char(simplesub_char(c, p, Direction::Encrypt), p, Direction::Decrypt) == c,
{
    if is_lower(c) {
        let k = c as int - 97;
        assert(is_lower(p[k]));
        lemma_position_of(p, k, 26);
    } else if is_upper(c) {
        let k = c as int - 65;
        assert(is_lower(p[k]));
        lemma_case_round_trip(p[k]);
        lemma_position_of(p, k, 26);
    }
}

/// A lower-case letter put in upper case and back is the letter.
pub proof fn lemma_case_round_trip(c: char)
    requires
        is_lower(c),
    ensures
        is_upper(to_upper(c)),
        to_lower(to_upper(c)) == c,
{
}

/// Decrypting what was encrypted under the same alphabet gives the message
/// back.
pub proof fn lemma_simplesub_round_trip(m: Seq<char>, p: Seq<char>)
    requires
        is_letter_permutation(p),
    ensures
        simplesub_spec(simplesub_spec(m, p, Direction::Encrypt), p, Direction::Decrypt) == m,
{
    let d = simplesub_spec(simplesub_spec(m, p, Direction::Encrypt), p, Direction::Decrypt);
    assert forall|i: int| 0 <= i < m.len() implies d[i] == m[i] by {
        lemma_simplesub_char_round_trip(m[i], p);
    }
    assert(d =~= m);
}

} // verus!
