//! What the scorer counts in a candidate text before it weighs anything:
//! the letters, the words and their lengths, the letters that words begin
//! and end with, and the common words that occur. The text is first rid of
//! the white space at its ends and put in lower case.
//!
//! A word is what stands between two white-space characters, or between one
//! and an end of the text, so that two blanks in a row have an empty word
//! between them. Only the letters `a` to `z` count as letters.

use vstd::prelude::*;
use crate::text::{
    char_is_lower, char_is_space, chars_of, contains_chars, contains_seq, is_lower, is_space,
    lower_chars, lower_seq, string_of, trim_chars, trimmed,
};
use crate::utils::candidates::key_views;

verus! {

/// The text that is counted: `m` without the white space at its ends, in
/// lower case.
pub open spec fn counted_text(m: Seq<char>) -> Seq<char> {
    lower_seq(trimmed(m))
}

/// The letter at place `k` of the alphabet.
pub open spec fn letter_at(k: int) -> char {
    (97 + k) as u8 as char
}

/// Whether a word begins at place `i` of `s`.
pub open spec fn is_word_start(s: Seq<char>, i: int) -> bool {
    0 <= i < s.len() && !is_space(s[i]) && (i == 0 || is_space(s[i - 1]))
}

/// Whether a word ends at place `i` of `s`.
pub open spec fn is_word_end(s: Seq<char>, i: int) -> bool {
    0 <= i < s.len() && !is_space(s[i]) && (i == s.len() - 1 || is_space(s[i + 1]))
}

/// How many of the first `n` characters of `s` are letters.
pub open spec fn letters_upto(s: Seq<char>, n: int) -> int
    decreases n,
{
    if n <= 0 {
        0
    } else {
        letters_upto(s, n - 1) + if is_lower(s[n - 1]) {
            1int
        } else {
            0
        }
    }
}

/// How many of the first `n` characters of `s` are white space.
pub open spec fn spaces_upto(s: Seq<char>, n: int) -> int
    decreases n,
{
    if n <= 0 {
        0
    } else {
        spaces_upto(s, n - 1) + if is_space(s[n - 1]) {
            1int
        } else {
            0
        }
    }
}

/// How many of the first `n` characters of `s` are `c`.
pub open spec fn occurrences_upto(s: Seq<char>, c: char, n: int) -> int
    decreases n,
{
    if n <= 0 {
        0
    } else {
        occurrences_upto(s, c, n - 1) + if s[n - 1] == c {
            1int
        } else {
            0
        }
    }
}

/// How many words of `s` begin with `c` at a place below `n`.
pub open spec fn starts_upto(s: Seq<char>, c: char, n: int) -> int
    decreases n,
{
    if n <= 0 {
        0
    } else {
        starts_upto(s, c, n - 1) + if s[n - 1] == c && is_word_start(s, n - 1) {
            1int
        } else {
            0
        }
    }
}

/// How many words of `s` end with `c` at a place below `n`.
pub open spec fn ends_upto(s: Seq<char>, c: char, n: int) -> int
    decreases n,
{
    if n <= 0 {
        0
    } else {
        ends_upto(s, c, n - 1) + if s[n - 1] == c && is_word_end(s, n - 1) {
            1int
        } else {
            0
        }
    }
}

/// The lengths of the words of `s`, in order. A text without white space
/// is one word, the empty text one empty word.
pub open spec fn word_lengths(s: Seq<char>) -> Seq<int>
    decreases s.len(),
{
    if s.len() == 0 {
        seq![0int]
    } else if is_space(s.last()) {
        word_lengths(s.drop_last()).push(0)
    } else {
        let before = word_lengths(s.drop_last());
        before.update(before.len() - 1, before.last() + 1)
    }
}

/// How many of the first `n` words of `words` stand somewhere in `s`.
pub open spec fn hits_upto(s: Seq<char>, words: Seq<Seq<char>>, n: int) -> int
    decreases n,
{
    if n <= 0 {
        0
    } else {
        hits_upto(s, words, n - 1) + if contains_seq(s, words[n - 1]) {
            1int
        } else {
            0
        }
    }
}

/// The words of `lines` as a word list holds them: in lower case.
pub open spec fn lowered_words(lines: Seq<Seq<char>>) -> Seq<Seq<char>> {
    Seq::new(lines.len(), |i: int| lower_seq(lines[i]))
}

/// `words` without the empty word and without every word that stands in
/// the list before.
pub open spec fn distinct_words(words: Seq<Seq<char>>) -> Seq<Seq<char>>
    decreases words.len(),
{
    if words.len() == 0 {
        Seq::empty()
    } else if words.last().len() == 0 || words.drop_last().contains(words.last()) {
        distinct_words(words.drop_last())
    } else {
        distinct_words(words.drop_last()).push(words.last())
    }
}

/// The word list that the lines `lines` make: each line in lower case, in
/// the order of the lines, no word twice and no empty word.
pub open spec fn wordlist_spec(lines: Seq<Seq<char>>) -> Seq<Seq<char>> {
    distinct_words(lowered_words(lines))
}

/// The counts of a text.
#[derive(Debug)]
pub struct TextStats {
    /// The number of characters.
    pub chars: usize,
    /// The number of letters.
    pub letters: usize,
    /// For each letter of the alphabet, how often it occurs.
    pub letter_counts: Vec<usize>,
    /// The lengths of the words, in order.
    pub word_lengths: Vec<usize>,
    /// For each letter of the alphabet, how many words begin with it.
    pub first_letters: Vec<usize>,
    /// For each letter of the alphabet, how many words end with it.
    pub last_letters: Vec<usize>,
    /// The number of common words that occur in the text.
    pub word_hits: usize,
}

impl TextStats {
    /// Whether these are the counts of `m` against the common words
    /// `words`.
    pub open spec fn counts(&self, m: Seq<char>, words: Seq<Seq<char>>) -> bool {
        let s = counted_text(m);
        let n = s.len() as int;
        &&& self.chars == n
        &&& self.letters == letters_upto(s, n)
        &&& self.letter_counts@.len() == 26
        &&& forall|k: int|
            0 <= k < 26 ==> #[trigger] self.letter_counts@[k] == occurrences_upto(
                s,
                letter_at(k),
                n,
            )
        &&& self.word_lengths@.len() == word_lengths(s).len()
        &&& forall|k: int|
            0 <= k < self.word_lengths@.len() ==> #[trigger] self.word_lengths@[k] == word_lengths(
                s,
            )[k]
        &&& self.first_letters@.len() == 26
        &&& forall|k: int|
            0 <= k < 26 ==> #[trigger] self.first_letters@[k] == starts_upto(s, letter_at(k), n)
        &&& self.last_letters@.len() == 26
        &&& forall|k: int|
            0 <= k < 26 ==> #[trigger] self.last_letters@[k] == ends_upto(s, letter_at(k), n)
        &&& self.word_hits == hits_upto(s, words, words.len() as int)
    }

    /// Whether a score can be weighed from these counts: there is a
    /// character, and a letter among the characters.
    pub open spec fn scorable(&self) -> bool {
        self.chars > 0 && self.letters > 0
    }

    /// Whether a score can be weighed from these counts. A text without
    /// characters or without letters has none to divide by and ranks below
    /// every text that has.
    pub fn is_scorable(&self) -> (r: bool)
        ensures
            r == self.scorable(),
    {
        self.chars > 0 && self.letters > 0
    }
}

/// `count` zeros.
fn zero_counts(count: usize) -> (v: Vec<usize>)
    ensures
        v@.len() == count,
        forall|k: int| 0 <= k < count ==> v@[k] == 0,
{
    let mut v: Vec<usize> = Vec::new();
    let mut k: usize = 0;
    while k < count
        invariant
            k <= count,
            v@.len() == k,
            forall|j: int| 0 <= j < k ==> v@[j] == 0,
        decreases count - k,
    {
        v.push(0);
        k += 1;
    }
    v
}

/// How many of the common words `words` stand somewhere in `s`.
fn count_hits(s: &Vec<char>, words: &Vec<String>) -> (hits: usize)
    ensures
        hits == hits_upto(s@, key_views(words@), words@.len() as int),
{
    let mut hits: usize = 0;
    let mut i: usize = 0;
    while i < words.len()
        invariant
            i <= words@.len(),
            hits <= i,
            hits == hits_upto(s@, key_views(words@), i as int),
        decreases words@.len() - i,
    {
        let word = chars_of(words[i].as_str());
        if contains_chars(s, &word) {
            hits += 1;
        }
        i += 1;
    }
    hits
}

/// Counts in `message` what the scorer weighs, against the common words
/// `words`.
pub fn text_stats(message: &str, words: &Vec<String>) -> (stats: TextStats)
    ensures
        stats.counts(message@, key_views(words@)),
{
    let raw = chars_of(message);
    let cut = trim_chars(&raw);
    let s = lower_chars(&cut);
    let n = s.len();
    let mut letters: usize = 0;
    let mut letter_counts = zero_counts(26);
    let mut first_letters = zero_counts(26);
    let mut last_letters = zero_counts(26);
    let mut lengths: Vec<usize> = Vec::new();
    lengths.push(0);
    let mut i: usize = 0;
    while i < n
        invariant
            i <= n,
            n == s@.len(),
            letters <= i,
            letters == letters_upto(s@, i as int),
            letter_counts@.len() == 26,
            first_letters@.len() == 26,
            last_letters@.len() == 26,
            forall|k: int|
                0 <= k < 26 ==> #[trigger] letter_counts@[k] == occurrences_upto(
                    s@,
                    letter_at(k),
                    i as int,
                ) && letter_counts@[k] <= i,
            forall|k: int|
                0 <= k < 26 ==> #[trigger] first_letters@[k] == starts_upto(
                    s@,
                    letter_at(k),
                    i as int,
                ) && first_letters@[k] <= i,
            forall|k: int|
                0 <= k < 26 ==> #[trigger] last_letters@[k] == ends_upto(
                    s@,
                    letter_at(k),
                    i as int,
                ) && last_letters@[k] <= i,
            lengths@.len() == word_lengths(s@.take(i as int)).len(),
            lengths@.len() >= 1,
            forall|k: int|
                0 <= k < lengths@.len() ==> #[trigger] lengths@[k] == word_lengths(
                    s@.take(i as int),
                )[k] && lengths@[k] <= i,
        decreases n - i,
    {
        let c = s[i];
        let ghost next = s@.take(i + 1);
        assert(next.drop_last() =~= s@.take(i as int));
        if char_is_lower(c) {
            let k: usize = (c as u8 - 97) as usize;
            letters += 1;
            letter_counts[k] += 1;
            let starts = i == 0 || char_is_space(s[i - 1]);
            if starts {
                first_letters[k] += 1;
            }
            let ends = i == n - 1 || char_is_space(s[i + 1]);
            if ends {
                last_letters[k] += 1;
            }
        }
        if char_is_space(c) {
            lengths.push(0);
        } else {
            let at = lengths.len() - 1;
            lengths[at] += 1;
        }
        i += 1;
    }
    assert(s@.take(n as int) =~= s@);
    let word_hits = count_hits(&s, words);
    TextStats {
        chars: n,
        letters: letters,
        letter_counts: letter_counts,
        word_lengths: lengths,
        first_letters: first_letters,
        last_letters: last_letters,
        word_hits: word_hits,
    }
}

/// Whether `word` stands in the list `kept`.
fn word_seen(kept: &Vec<String>, word: &String) -> (r: bool)
    ensures
        r == key_views(kept@).contains(word@),
{
    let mut i: usize = 0;
    while i < kept.len()
        invariant
            i <= kept@.len(),
            forall|k: int| 0 <= k < i ==> key_views(kept@)[k] != word@,
        decreases kept@.len() - i,
    {
        if kept[i] == *word {
            assert(key_views(kept@)[i as int] == word@);
            return true;
        }
        i += 1;
    }
    false
}

/// Makes a word list of the lines of a file: each line in lower case, no
/// word twice and no empty word.
pub fn make_wordlist(lines: &Vec<String>) -> (words: Vec<String>)
    ensures
        key_views(words@) == wordlist_spec(key_views(lines@)),
{
    let mut words: Vec<String> = Vec::new();
    let ghost all = lowered_words(key_views(lines@));
    assert(key_views(words@) =~= Seq::<Seq<char>>::empty());
    assert(all.take(0) =~= Seq::<Seq<char>>::empty());
    let mut i: usize = 0;
    while i < lines.len()
        invariant
            i <= lines@.len(),
            all == lowered_words(key_views(lines@)),
            key_views(words@) == distinct_words(all.take(i as int)),
        decreases lines@.len() - i,
    {
        let low = string_of(&lower_chars(&chars_of(lines[i].as_str())));
        let ghost next = all.take(i + 1);
        assert(next.drop_last() =~= all.take(i as int));
        assert(next.last() == low@);
        proof {
            if low@.len() > 0 {
                lemma_distinct_contains(all.take(i as int), low@);
            }
        }
        if !low.as_str().is_empty() && !word_seen(&words, &low) {
            let ghost before = key_views(words@);
            words.push(low);
            assert(key_views(words@) =~= before.push(next.last()));
        }
        i += 1;
    }
    assert(all.take(lines@.len() as int) =~= all);
    words
}

/// A word that is not empty stands in the list rid of repeats exactly
/// when it stands in the list.
pub proof fn lemma_distinct_contains(words: Seq<Seq<char>>, word: Seq<char>)
    requires
        word.len() > 0,
    ensures
        distinct_words(words).contains(word) == words.contains(word),
    decreases words.len(),
{
    if words.len() > 0 {
        let rest = words.drop_last();
        let d = distinct_words(rest);
        lemma_distinct_contains(rest, word);
        if words.last().len() > 0 {
            lemma_distinct_contains(rest, words.last());
        }
        if words.contains(word) {
            let i = choose|i: int| 0 <= i < words.len() && words[i] == word;
            if i < words.len() - 1 {
                assert(rest[i] == word);
                let k = choose|k: int| 0 <= k < d.len() && d[k] == word;
                assert(distinct_words(words)[k] == word);
            } else if rest.contains(word) {
                let k = choose|k: int| 0 <= k < d.len() && d[k] == word;
                assert(distinct_words(words)[k] == word);
            } else {
                assert(distinct_words(words)[d.len() as int] == word);
            }
        }
        if distinct_words(words).contains(word) {
            let k = choose|k: int|
                0 <= k < distinct_words(words).len() && distinct_words(words)[k] == word;
            if k < d.len() {
                assert(d[k] == word);
                let i = choose|i: int| 0 <= i < rest.len() && rest[i] == word;
                assert(words[i] == word);
            } else {
                assert(words[words.len() - 1] == word);
            }
        }
    }
}

/// A word list holds no word twice and no empty word.
pub proof fn lemma_wordlist_distinct(words: Seq<Seq<char>>)
    ensures
        distinct_words(words).no_duplicates(),
        forall|k: int|
            0 <= k < distinct_words(words).len() ==> (#[trigger] distinct_words(words)[k]).len()
                > 0,
    decreases words.len(),
{
    if words.len() > 0 {
        let rest = words.drop_last();
        let d = distinct_words(rest);
        lemma_wordlist_distinct(rest);
        if words.last().len() > 0 {
            lemma_distinct_contains(rest, words.last());
        }
        let r = distinct_words(words);
        assert forall|i: int, j: int| 0 <= i < r.len() && 0 <= j < r.len() && i != j implies r[i]
            != r[j] by {
            if i < d.len() && j < d.len() {
                assert(r[i] == d[i] && r[j] == d[j]);
            } else if i < d.len() {
                assert(r[i] == d[i]);
                assert(d.contains(d[i]));
            } else if j < d.len() {
                assert(r[j] == d[j]);
                assert(d.contains(d[j]));
            }
        }
    }
}

/// The number of words is one more than the number of white-space
/// characters.
pub proof fn lemma_word_count(s: Seq<char>)
    ensures
        word_lengths(s).len() == spaces_upto(s, s.len() as int) + 1,
        spaces_upto(s, s.len() as int) >= 0,
    decreases s.len(),
{
    if s.len() > 0 {
        lemma_word_count(s.drop_last());
        lemma_spaces_of_prefix(s, s.len() - 1);
    }
}

/// The white space among the first `n` characters is the same in any
/// longer text that begins with them.
pub proof fn lemma_spaces_of_prefix(s: Seq<char>, n: int)
    requires
        0 <= n <= s.len(),
    ensures
        spaces_upto(s.take(n), n) == spaces_upto(s, n),
    decreases n,
{
    if n > 0 {
        lemma_spaces_of_prefix(s, n - 1);
        lemma_spaces_of_prefix(s.take(n), n - 1);
        assert(s.take(n).take(n - 1) =~= s.take(n - 1));
    }
}

} // verus!
