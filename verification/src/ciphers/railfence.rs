//! The rail fence: the message is written in a zig-zag over a number of
//! rails and read off rail by rail.

use vstd::prelude::*;
use crate::ciphers::{CipherError, Direction, view_result};
use crate::text::{chars_of, string_of};

verus! {

/// The rail on which position `i` of the zig-zag lies, with `rails` rails:
/// down from rail 0 to the last rail, up again to rail 0, and so on.
pub open spec fn rail_of(i: int, rails: int) -> int {
    let period = 2 * (rails - 1);
    let k = i % period;
    if k < rails {
        k
    } else {
        period - k
    }
}

/// How many of the positions below `n` lie on rail `row`.
pub open spec fn row_count(n: int, rails: int, row: int) -> int
    decreases n,
{
    if n <= 0 {
        0
    } else {
        row_count(n - 1, rails, row) + if rail_of(n - 1, rails) == row {
            1int
        } else {
            0
        }
    }
}

/// The characters of `m` at the positions below `n` that lie on rail `row`,
/// in the order of the message.
pub open spec fn row_seq(m: Seq<char>, rails: int, row: int, n: int) -> Seq<char>
    decreases n,
{
    if n <= 0 {
        Seq::empty()
    } else if rail_of(n - 1, rails) == row {
        row_seq(m, rails, row, n - 1).push(m[n - 1])
    } else {
        row_seq(m, rails, row, n - 1)
    }
}

/// The rails below `k`, each read in full, one after the other.
pub open spec fn rows_upto(m: Seq<char>, rails: int, k: int) -> Seq<char>
    decreases k,
{
    if k <= 0 {
        Seq::empty()
    } else {
        rows_upto(m, rails, k - 1) + row_seq(m, rails, k - 1, m.len() as int)
    }
}

/// How many of the positions below `n` lie on a rail below `k`: where rail
/// `k` starts in the text read off rail by rail.
pub open spec fn row_offset(n: int, rails: int, k: int) -> int
    decreases k,
{
    if k <= 0 {
        0
    } else {
        row_offset(n, rails, k - 1) + row_count(n, rails, k - 1)
    }
}

/// `m` written along `rails` rails and read off rail by rail.
pub open spec fn rail_encrypt_spec(m: Seq<char>, rails: int) -> Seq<char> {
    rows_upto(m, rails, rails)
}

/// Where the character at position `i` of a message of `n` characters
/// stands once the message is read off rail by rail: after all characters of
/// earlier rails and after the earlier characters of its own rail.
pub open spec fn rail_pos(i: int, n: int, rails: int) -> int {
    row_offset(n, rails, rail_of(i, rails)) + row_count(i, rails, rail_of(i, rails))
}

/// The message that reads `c` when written along `rails` rails: each
/// position of the zig-zag takes the character that stands at its place in
/// the text read off rail by rail.
pub open spec fn rail_decrypt_spec(c: Seq<char>, rails: int) -> Seq<char> {
    Seq::new(c.len(), |i: int| c[rail_pos(i, c.len() as int, rails)])
}

/// Whether `rails` is a number of rails that a message of `n` characters
/// can be written along: at least two, and no more than there are
/// characters.
pub open spec fn rails_fit(n: int, rails: int) -> bool {
    2 <= rails <= n
}

/// What the rail fence makes of `m`: an error where the rails do not fit
/// the message, else the text read off the rails, or written back along
/// them.
pub open spec fn railfence_spec(m: Seq<char>, rails: int, direction: Direction) -> Result<
    Seq<char>,
    CipherError,
> {
    if !rails_fit(m.len() as int, rails) {
        Err(CipherError::RailsOutOfRange)
    } else {
        match direction {
            Direction::Encrypt => Ok(rail_encrypt_spec(m, rails)),
            Direction::Decrypt => Ok(rail_decrypt_spec(m, rails)),
        }
    }
}

/// The rail of position `i`.
fn rail_index(i: usize, rails: usize) -> (r: usize)
    requires
        2 <= rails <= 0x7fff_ffff,
    ensures
        r == rail_of(i as int, rails as int),
        r < rails,
{
    let period: usize = 2 * (rails - 1);
    let k: usize = i % period;
    if k < rails {
        k
    } else {
        period - k
    }
}

/// `count` zeros.
fn zeros(count: usize) -> (v: Vec<usize>)
    ensures
        v@.len() == count,
        forall|k: int| 0 <= k < count ==> v@[k] == 0,
{
    let mut v: Vec<usize> = Vec::new();
    let mut k: usize = 0;
    while k < count
        invariant
            k <= count,
            v@.len() == k,
            forall|j: int| 0 <= j < k ==> v@[j] == 0,
        decreases count - k,
    {
        v.push(0);
        k += 1;
    }
    v
}

/// Writes `input` along `rails` rails and reads it off rail by rail.
fn rail_encrypt(input: &Vec<char>, rails: usize) -> (out: Vec<char>)
    requires
        2 <= rails <= 0x7fff_ffff,
    ensures
        out@ == rail_encrypt_spec(input@, rails as int),
{
    let n = input.len();
    let mut rows: Vec<Vec<char>> = Vec::new();
    let mut k: usize = 0;
    while k < rails
        invariant
            k <= rails,
            rows@.len() == k,
            forall|j: int| 0 <= j < k ==> (#[trigger] rows@[j])@ == Seq::<char>::empty(),
        decreases rails - k,
    {
        rows.push(Vec::new());
        k += 1;
    }
    let mut i: usize = 0;
    while i < n
        invariant
            i <= n,
            n == input@.len(),
            2 <= rails <= 0x7fff_ffff,
            rows@.len() == rails,
            forall|j: int|
                0 <= j < rails ==> (#[trigger] rows@[j])@ == row_seq(
                    input@,
                    rails as int,
                    j,
                    i as int,
                ),
        decreases n - i,
    {
        let r = rail_index(i, rails);
        let ghost before = rows@;
        rows[r].push(input[i]);
        assert forall|j: int| 0 <= j < rails implies (#[trigger] rows@[j])@ == row_seq(
            input@,
            rails as int,
            j,
            i as int + 1,
        ) by {
            if j != r {
                assert(rows@[j] == before[j]);
            }
        }
        i += 1;
    }
    let mut out: Vec<char> = Vec::new();
    let mut k: usize = 0;
    while k < rails
        invariant
            k <= rails,
            n == input@.len(),
            rows@.len() == rails,
            forall|j: int|
                0 <= j < rails ==> (#[trigger] rows@[j])@ == row_seq(
                    input@,
                    rails as int,
                    j,
                    n as int,
                ),
            out@ == rows_upto(input@, rails as int, k as int),
        decreases rails - k,
    {
        let row = &rows[k];
        let ghost head = out@;
        let mut j: usize = 0;
        while j < row.len()
            invariant
                j <= row@.len(),
                out@ == head + row@.take(j as int),
            decreases row.len() - j,
        {
            out.push(row[j]);
            assert(row@.take(j + 1) =~= row@.take(j as int).push(row@[j as int]));
            assert(out@ =~= head + row@.take(j + 1));
            j += 1;
        }
        assert(row@.take(row@.len() as int) =~= row@);
        k += 1;
    }
    out
}

/// Writes `input` back along `rails` rails.
fn rail_decrypt(input: &Vec<char>, rails: usize) -> (out: Vec<char>)
    requires
        2 <= rails <= 0x7fff_ffff,
    ensures
        out@ == rail_decrypt_spec(input@, rails as int),
{
    let n = input.len();
    let mut counts = zeros(rails);
    let mut i: usize = 0;
    while i < n
        invariant
            i <= n,
            2 <= rails <= 0x7fff_ffff,
            counts@.len() == rails,
            forall|j: int| 0 <= j < rails ==> #[trigger] counts@[j] == row_count(
                i as int,
                rails as int,
                j,
            ),
        decreases n - i,
    {
        let r = rail_index(i, rails);
        proof {
            lemma_row_count_bounds(0, i as int, rails as int, r as int);
        }
        counts[r] += 1;
        i += 1;
    }
    let mut offsets: Vec<usize> = Vec::new();
    let mut start: usize = 0;
    let mut k: usize = 0;
    while k < rails
        invariant
            k <= rails,
            2 <= rails,
            n == input@.len(),
            counts@.len() == rails,
            forall|j: int| 0 <= j < rails ==> #[trigger] counts@[j] == row_count(
                n as int,
                rails as int,
                j,
            ),
            offsets@.len() == k,
            forall|j: int| 0 <= j < k ==> #[trigger] offsets@[j] == row_offset(
                n as int,
                rails as int,
                j,
            ),
            start == row_offset(n as int, rails as int, k as int),
        decreases rails - k,
    {
        offsets.push(start);
        proof {
            lemma_row_offset_monotone(n as int, rails as int, k as int + 1, rails as int);
            lemma_row_offset_total(n as int, rails as int);
        }
        start += counts[k];
        k += 1;
    }
    let mut cursors = zeros(rails);
    let mut out: Vec<char> = Vec::new();
    let mut i: usize = 0;
    while i < n
        invariant
            i <= n,
            n == input@.len(),
            2 <= rails <= 0x7fff_ffff,
            offsets@.len() == rails,
            forall|j: int| 0 <= j < rails ==> #[trigger] offsets@[j] == row_offset(
                n as int,
                rails as int,
                j,
            ),
            cursors@.len() == rails,
            forall|j: int| 0 <= j < rails ==> #[trigger] cursors@[j] == row_count(
                i as int,
                rails as int,
                j,
            ),
            out@.len() == i,
            forall|j: int| 0 <= j < i ==> out@[j] == input@[rail_pos(j, n as int, rails as int)],
        decreases n - i,
    {
        let r = rail_index(i, rails);
        proof {
            lemma_rail_pos_in_range(i as int, n as int, rails as int);
            lemma_row_count_bounds(0, i as int, rails as int, r as int);
        }
        let pos = offsets[r] + cursors[r];
        out.push(input[pos]);
        cursors[r] += 1;
        i += 1;
    }
    out
}

/// Writes `message` along `rails` rails and reads it off rail by rail, or
/// writes it back. The number of rails has to be at least two and at most
/// the number of characters of the message.
pub fn railfence_cipher(message: &str, rails: i32, direction: Direction) -> (result: Result<
    String,
    CipherError,
>)
    ensures
        view_result(result) == railfence_spec(message@, rails as int, direction),
{
    let input = chars_of(message);
    if rails < 2 || rails as usize > input.len() {
        return Err(CipherError::RailsOutOfRange);
    }
    let out = match direction {
        Direction::Encrypt => rail_encrypt(&input, rails as usize),
        Direction::Decrypt => rail_decrypt(&input, rails as usize),
    };
    Ok(string_of(&out))
}

/// Every position lies on one of the rails.
pub proof fn lemma_rail_in_range(i: int, rails: int)
    requires
        rails >= 2,
    ensures
        0 <= rail_of(i, rails) < rails,
{
}

/// A rail holds no more positions than there are, and longer messages put
/// no fewer on it.
pub proof fn lemma_row_count_bounds(a: int, b: int, rails: int, row: int)
    requires
        0 <= a <= b,
    ensures
        0 <= row_count(a, rails, row) <= row_count(b, rails, row),
        row_count(b, rails, row) - row_count(a, rails, row) <= b - a,
    decreases b,
{
    if b > a {
        lemma_row_count_bounds(a, b - 1, rails, row);
    } else if a > 0 {
        lemma_row_count_bounds(a - 1, a - 1, rails, row);
    }
}

/// A position counts on its own rail from itself on.
pub proof fn lemma_row_count_strict(i: int, n: int, rails: int)
    requires
        0 <= i < n,
    ensures
        row_count(i, rails, rail_of(i, rails)) < row_count(n, rails, rail_of(i, rails)),
{
    lemma_row_count_bounds(i + 1, n, rails, rail_of(i, rails));
}

/// Where a rail starts does not move back from rail to rail.
pub proof fn lemma_row_offset_monotone(n: int, rails: int, a: int, b: int)
    requires
        0 <= n,
        0 <= a <= b,
    ensures
        0 <= row_offset(n, rails, a) <= row_offset(n, rails, b),
    decreases b,
{
    if b > a {
        lemma_row_offset_monotone(n, rails, a, b - 1);
        lemma_row_count_bounds(0, n, rails, b - 1);
    } else if a > 0 {
        lemma_row_offset_monotone(n, rails, a - 1, a - 1);
        lemma_row_count_bounds(0, n, rails, a - 1);
    }
}

/// One more position adds one to the start of every rail behind its own.
pub proof fn lemma_row_offset_step(n: int, rails: int, k: int)
    requires
        n >= 1,
        k >= 0,
    ensures
        row_offset(n, rails, k) == row_offset(n - 1, rails, k) + if rail_of(n - 1, rails) < k
            && rail_of(n - 1, rails) >= 0 {
            1int
        } else {
            0
        },
    decreases k,
{
    if k > 0 {
        lemma_row_offset_step(n, rails, k - 1);
    }
}

/// All rails together hold every position once.
pub proof fn lemma_row_offset_total(n: int, rails: int)
    requires
        n >= 0,
        rails >= 2,
    ensures
        row_offset(n, rails, rails) == n,
    decreases n,
{
    if n == 0 {
        lemma_row_offset_zero(rails, rails);
    } else {
        lemma_row_offset_total(n - 1, rails);
        lemma_row_offset_step(n, rails, rails);
        lemma_rail_in_range(n - 1, rails);
    }
}

/// With no positions every rail starts at 0.
pub proof fn lemma_row_offset_zero(rails: int, k: int)
    ensures
        row_offset(0, rails, k) == 0,
    decreases k,
{
    if k > 0 {
        lemma_row_offset_zero(rails, k - 1);
    }
}

/// A rail read up to `n` holds as many characters as it has positions.
pub proof fn lemma_row_seq_len(m: Seq<char>, rails: int, row: int, n: int)
    requires
        0 <= n,
    ensures
        row_seq(m, rails, row, n).len() == row_count(n, rails, row),
    decreases n,
{
    if n > 0 {
        lemma_row_seq_len(m, rails, row, n - 1);
    }
}

/// The rails below `k` hold as many characters as they have positions.
pub proof fn lemma_rows_upto_len(m: Seq<char>, rails: int, k: int)
    requires
        0 <= k,
    ensures
        rows_upto(m, rails, k).len() == row_offset(m.len() as int, rails, k),
    decreases k,
{
    if k > 0 {
        lemma_rows_upto_len(m, rails, k - 1);
        lemma_row_seq_len(m, rails, k - 1, m.len() as int);
    }
}

/// On its rail, the character of position `i` stands behind the characters
/// of the earlier positions of that rail.
pub proof fn lemma_row_seq_index(m: Seq<char>, rails: int, n: int, i: int)
    requires
        0 <= i < n <= m.len(),
    ensures
        0 <= row_count(i, rails, rail_of(i, rails)) < row_seq(m, rails, rail_of(i, rails), n).len(),
        row_seq(m, rails, rail_of(i, rails), n)[row_count(i, rails, rail_of(i, rails))] == m[i],
    decreases n,
{
    let row = rail_of(i, rails);
    lemma_row_seq_len(m, rails, row, n);
    lemma_row_seq_len(m, rails, row, n - 1);
    lemma_row_count_strict(i, n, rails);
    lemma_row_count_bounds(0, i, rails, row);
    if i < n - 1 {
        lemma_row_seq_index(m, rails, n - 1, i);
    }
}

/// In the rails below `k` read one after the other, rail `row` stands at
/// its start.
pub proof fn lemma_rows_upto_index(m: Seq<char>, rails: int, k: int, row: int, j: int)
    requires
        0 <= row < k,
        0 <= j < row_count(m.len() as int, rails, row),
    ensures
        0 <= row_offset(m.len() as int, rails, row) + j < rows_upto(m, rails, k).len(),
        rows_upto(m, rails, k)[row_offset(m.len() as int, rails, row) + j] == row_seq(
            m,
            rails,
            row,
            m.len() as int,
        )[j],
    decreases k,
{
    let n = m.len() as int;
    lemma_rows_upto_len(m, rails, k);
    lemma_rows_upto_len(m, rails, k - 1);
    lemma_row_seq_len(m, rails, k - 1, n);
    lemma_row_offset_monotone(n, rails, row, k - 1);
    if row < k - 1 {
        lemma_rows_upto_index(m, rails, k - 1, row, j);
    }
}

/// The text read off the rails has the character of position `i` at the
/// place that `rail_pos` names.
pub proof fn lemma_encrypt_index(m: Seq<char>, rails: int, i: int)
    requires
        rails >= 2,
        0 <= i < m.len(),
    ensures
        rail_encrypt_spec(m, rails).len() == m.len(),
        0 <= rail_pos(i, m.len() as int, rails) < m.len(),
        rail_encrypt_spec(m, rails)[rail_pos(i, m.len() as int, rails)] == m[i],
{
    let n = m.len() as int;
    let row = rail_of(i, rails);
    lemma_rail_in_range(i, rails);
    lemma_rows_upto_len(m, rails, rails);
    lemma_row_offset_total(n, rails);
    lemma_row_seq_index(m, rails, n, i);
    lemma_row_seq_len(m, rails, row, n);
    lemma_rows_upto_index(m, rails, rails, row, row_count(i, rails, row));
}

/// Every place that `rail_pos` names lies inside the text.
pub proof fn lemma_rail_pos_in_range(i: int, n: int, rails: int)
    requires
        rails >= 2,
        0 <= i < n,
    ensures
        0 <= rail_pos(i, n, rails) < n,
{
    let row = rail_of(i, rails);
    lemma_rail_in_range(i, rails);
    lemma_row_count_strict(i, n, rails);
    lemma_row_count_bounds(0, i, rails, row);
    lemma_row_offset_monotone(n, rails, 0, row);
    lemma_row_offset_monotone(n, rails, row + 1, rails);
    lemma_row_offset_total(n, rails);
}

/// Writing back along the rails what was read off them gives the message
/// back.
pub proof fn lemma_railfence_round_trip(m: Seq<char>, rails: int)
    requires
        rails_fit(m.len() as int, rails),
    ensures
        rail_decrypt_spec(rail_encrypt_spec(m, rails), rails) == m,
        railfence_spec(m, rails, Direction::Encrypt) is Ok,
        railfence_spec(
            railfence_spec(m, rails, Direction::Encrypt)->Ok_0,
            rails,
            Direction::Decrypt,
        ) == Ok::<Seq<char>, CipherError>(m),
{
    let e = rail_encrypt_spec(m, rails);
    lemma_rows_upto_len(m, rails, rails);
    lemma_row_offset_total(m.len() as int, rails);
    let d = rail_decrypt_spec(e, rails);
    assert forall|i: int| 0 <= i < m.len() implies d[i] == m[i] by {
        lemma_encrypt_index(m, rails, i);
    }
}

} // verus!
