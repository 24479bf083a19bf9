//! Characters, their classes, and the passage between strings and vectors
//! of characters.
//!
//! Every transform of this library works on the sequence of Unicode scalar
//! values of a message. Only ASCII letters, digits and white space are ever
//! given a meaning; the classes below say which characters those are.

use vstd::prelude::*;

verus! {

/// Whether `c` is one of `A` to `Z`.
pub open spec fn is_upper(c: char) -> bool {
    'A' <= c && c <= 'Z'
}

/// Whether `c` is one of `a` to `z`.
pub open spec fn is_lower(c: char) -> bool {
    'a' <= c && c <= 'z'
}

/// Whether `c` is an ASCII letter of either case.
pub open spec fn is_letter(c: char) -> bool {
    is_upper(c) || is_lower(c)
}

/// Whether `c` is one of `0` to `9`.
pub open spec fn is_digit(c: char) -> bool {
    '0' <= c && c <= '9'
}

/// Whether `c` is ASCII white space: a blank, or one of the controls from
/// horizontal tab to carriage return.
pub open spec fn is_space(c: char) -> bool {
    c == ' ' || ('\t' <= c && c <= '\r')
}

/// `c` with an upper-case ASCII letter replaced by its lower-case form.
pub open spec fn to_lower(c: char) -> char {
    if is_upper(c) {
        ((c as int) + 32) as char
    } else {
        c
    }
}

/// `c` with a lower-case ASCII letter replaced by its upper-case form.
pub open spec fn to_upper(c: char) -> char {
    if is_lower(c) {
        ((c as int) - 32) as char
    } else {
        c
    }
}

/// `s` with every upper-case ASCII letter replaced by its lower-case form.
pub open spec fn lower_seq(s: Seq<char>) -> Seq<char> {
    Seq::new(s.len(), |i: int| to_lower(s[i]))
}

/// The place of a letter in the alphabet, `0` for `a` or `A` up to `25` for
/// `z` or `Z`; `-1` for any other character.
pub open spec fn letter_index(c: char) -> int {
    if is_upper(c) {
        c as int - 65
    } else if is_lower(c) {
        c as int - 97
    } else {
        -1
    }
}

/// Whether every character of `s` is below 128.
pub open spec fn all_ascii(s: Seq<char>) -> bool {
    forall|i: int| 0 <= i < s.len() ==> (#[trigger] s[i] as int) < 128
}

/// Whether `c` is one of `A` to `Z`.
pub fn char_is_upper(c: char) -> (r: bool)
    ensures
        r == is_upper(c),
{
    'A' <= c && c <= 'Z'
}

/// Whether `c` is one of `a` to `z`.
pub fn char_is_lower(c: char) -> (r: bool)
    ensures
        r == is_lower(c),
{
    'a' <= c && c <= 'z'
}

/// Whether `c` is one of `0` to `9`.
pub fn char_is_digit(c: char) -> (r: bool)
    ensures
        r == is_digit(c),
{
    '0' <= c && c <= '9'
}

/// Whether `c` is ASCII white space.
pub fn char_is_space(c: char) -> (r: bool)
    ensures
        r == is_space(c),
{
    c == ' ' || ('\t' <= c && c <= '\r')
}

/// `c` with an upper-case ASCII letter replaced by its lower-case form.
pub fn lower_char(c: char) -> (r: char)
    ensures
        r == to_lower(c),
{
    if char_is_upper(c) {
        let n: u8 = c as u8;
        (n + 32) as char
    } else {
        c
    }
}

/// `c` with a lower-case ASCII letter replaced by its upper-case form.
pub fn upper_char(c: char) -> (r: char)
    ensures
        r == to_upper(c),
{
    if char_is_lower(c) {
        let n: u8 = c as u8;
        (n - 32) as char
    } else {
        c
    }
}

/// `std::string::String::push`: the string afterwards is the string before
/// with `c` added at its end.
pub assume_specification[ String::push ](s: &mut String, c: char)
    ensures
        final(s)@ == old(s)@.push(c),
;

/// The characters of `s`, in order.
pub fn chars_of(s: &str) -> (v: Vec<char>)
    ensures
        v@ == s@,
{
    broadcast use vstd::string::group_string_axioms;

    let mut v: Vec<char> = Vec::new();
    for c in it: s.chars()
        invariant
            it.seq() == s@,
            v@ == s@.take(it.index()),
    {
        v.push(c);
    }
    v
}

/// The string made of the characters of `v`, in order.
pub fn string_of(v: &Vec<char>) -> (s: String)
    ensures
        s@ == v@,
{
    let mut s = String::new();
    let mut i: usize = 0;
    while i < v.len()
        invariant
            i <= v.len(),
            s@ == v@.take(i as int),
        decreases v.len() - i,
    {
        s.push(v[i]);
        i += 1;
    }
    s
}

/// The lower-case form of `v`, character by character.
pub fn lower_chars(v: &Vec<char>) -> (r: Vec<char>)
    ensures
        r@ == lower_seq(v@),
{
    let mut r: Vec<char> = Vec::new();
    let mut i: usize = 0;
    while i < v.len()
        invariant
            i <= v.len(),
            r@.len() == i,
            forall|j: int| 0 <= j < i ==> r@[j] == to_lower(v@[j]),
        decreases v.len() - i,
    {
        r.push(lower_char(v[i]));
        i += 1;
    }
    r
}

/// The first place from `from` on at which `s` holds something other than
/// white space; the length of `s` where it holds nothing else.
pub open spec fn skip_spaces(s: Seq<char>, from: int) -> int
    decreases s.len() - from,
{
    if from >= s.len() || !is_space(s[from]) {
        from
    } else {
        skip_spaces(s, from + 1)
    }
}

/// The place behind the last character before `to` that is not white
/// space; 0 where there is none.
pub open spec fn back_spaces(s: Seq<char>, to: int) -> int
    decreases to,
{
    if to <= 0 || !is_space(s[to - 1]) {
        to
    } else {
        back_spaces(s, to - 1)
    }
}

/// `s` without the white space at its two ends.
pub open spec fn trimmed(s: Seq<char>) -> Seq<char> {
    let start = skip_spaces(s, 0);
    let end = back_spaces(s, s.len() as int);
    if start < end {
        s.subrange(start, end)
    } else {
        Seq::empty()
    }
}

/// The first place from `from` on at which `s` holds `c`; the length of `s`
/// where it holds it nowhere.
pub open spec fn find_char(s: Seq<char>, c: char, from: int) -> int
    decreases s.len() - from,
{
    if from >= s.len() {
        s.len() as int
    } else if s[from] == c {
        from
    } else {
        find_char(s, c, from + 1)
    }
}

/// Whether `needle` stands in `hay` at place `at`.
pub open spec fn occurs_at(hay: Seq<char>, needle: Seq<char>, at: int) -> bool {
    0 <= at && at + needle.len() <= hay.len() && hay.subrange(at, at + needle.len()) == needle
}

/// Whether `needle` stands somewhere in `hay`.
pub open spec fn contains_seq(hay: Seq<char>, needle: Seq<char>) -> bool {
    exists|at: int| occurs_at(hay, needle, at)
}

/// The characters of `v` from place `from` up to, not including, place `to`.
pub fn slice_chars(v: &Vec<char>, from: usize, to: usize) -> (r: Vec<char>)
    requires
        from <= to <= v@.len(),
    ensures
        r@ == v@.subrange(from as int, to as int),
{
    let mut r: Vec<char> = Vec::new();
    let mut i: usize = from;
    while i < to
        invariant
            from <= i <= to <= v@.len(),
            r@ == v@.subrange(from as int, i as int),
        decreases to - i,
    {
        r.push(v[i]);
        i += 1;
    }
    r
}

/// `v` without the white space at its two ends.
pub fn trim_chars(v: &Vec<char>) -> (r: Vec<char>)
    ensures
        r@ == trimmed(v@),
{
    let n = v.len();
    let mut start: usize = 0;
    while start < n && char_is_space(v[start])
        invariant
            start <= n,
            n == v@.len(),
            skip_spaces(v@, start as int) == skip_spaces(v@, 0),
        decreases n - start,
    {
        start += 1;
    }
    let mut end: usize = n;
    while end > 0 && char_is_space(v[end - 1])
        invariant
            end <= n,
            n == v@.len(),
            back_spaces(v@, end as int) == back_spaces(v@, n as int),
        decreases end,
    {
        end -= 1;
    }
    if start < end {
        slice_chars(v, start, end)
    } else {
        Vec::new()
    }
}

/// The first place from `from` on at which `v` holds `c`, or the length of
/// `v`.
pub fn find_in_chars(v: &Vec<char>, c: char, from: usize) -> (r: usize)
    ensures
        r == find_char(v@, c, from as int),
        from <= v@.len() ==> from <= r <= v@.len(),
        r < v@.len() ==> v@[r as int] == c,
{
    let n = v.len();
    if from >= n {
        return n;
    }
    let mut i: usize = from;
    while i < n && v[i] != c
        invariant
            from <= i <= n,
            n == v@.len(),
            find_char(v@, c, i as int) == find_char(v@, c, from as int),
        decreases n - i,
    {
        i += 1;
    }
    i
}

/// Whether `needle` stands in `hay` at place `at`.
fn matches_at(hay: &Vec<char>, needle: &Vec<char>, at: usize) -> (r: bool)
    requires
        at + needle@.len() <= hay@.len(),
    ensures
        r == occurs_at(hay@, needle@, at as int),
{
    let m = needle.len();
    let n = hay.len();
    let mut j: usize = 0;
    while j < m
        invariant
            j <= m,
            m == needle@.len(),
            n == hay@.len(),
            at + m <= n,
            hay@.subrange(at as int, at + j) == needle@.take(j as int),
        decreases m - j,
    {
        if hay[at + j] != needle[j] {
            return false;
        }
        j += 1;
    }
    assert(needle@.take(m as int) =~= needle@);
    true
}

/// Whether `needle` stands somewhere in `hay`. The empty text stands in
/// every text.
pub fn contains_chars(hay: &Vec<char>, needle: &Vec<char>) -> (r: bool)
    ensures
        r == contains_seq(hay@, needle@),
{
    let n = hay.len();
    let m = needle.len();
    if m > n {
        return false;
    }
    if m == 0 {
        assert(hay@.subrange(0, 0) =~= needle@);
        assert(occurs_at(hay@, needle@, 0));
        return true;
    }
    let last = n - m;
    let mut at: usize = 0;
    while at <= last
        invariant
            at <= last + 1,
            last == n - m,
            0 < m <= n,
            n == hay@.len(),
            m == needle@.len(),
            forall|k: int| 0 <= k < at ==> !occurs_at(hay@, needle@, k),
        decreases last + 1 - at,
    {
        if matches_at(hay, needle, at) {
            return true;
        }
        at += 1;
    }
    false
}

} // verus!
