//! Columnar transposition: the message is written row by row under the
//! letters of the key and read off column by column, the columns taken in
//! the alphabetical order of their key letters.
//!
//! Where a key holds a letter more than once, the columns under that letter
//! are taken from left to right. The order of the columns is thus fixed for
//! every key, and every key can be undone.

use vstd::prelude::*;
use crate::ciphers::{CipherError, Direction, view_result};
use crate::text::{chars_of, string_of};

verus! {

/// The character that fills the last row of the grid.
pub const PADDING: char = '*';

/// How many of the first `n` characters of `key` come before `c`.
pub open spec fn count_less(key: Seq<char>, c: char, n: int) -> int
    decreases n,
{
    if n <= 0 {
        0
    } else {
        count_less(key, c, n - 1) + if key[n - 1] < c {
            1int
        } else {
            0
        }
    }
}

/// How many of the first `n` characters of `key` are `c`.
pub open spec fn count_same(key: Seq<char>, c: char, n: int) -> int
    decreases n,
{
    if n <= 0 {
        0
    } else {
        count_same(key, c, n - 1) + if key[n - 1] == c {
            1int
        } else {
            0
        }
    }
}

/// The place of column `k` in the order in which the columns are read: the
/// number of key characters that come before its own, plus the number of
/// columns to its left under the same character.
pub open spec fn col_rank(key: Seq<char>, k: int) -> int {
    count_less(key, key[k], key.len() as int) + count_same(key, key[k], k)
}

/// Among the first `n` columns, the one that is read at place `s`; column 0
/// where there is none.
pub open spec fn col_at_rank(key: Seq<char>, s: int, n: int) -> int
    decreases n,
{
    if n <= 0 {
        0
    } else if col_rank(key, n - 1) == s {
        n - 1
    } else {
        col_at_rank(key, s, n - 1)
    }
}

/// The number of rows of a grid of `width` columns that holds `n`
/// characters.
pub open spec fn col_rows(n: int, width: int) -> int {
    n / width + if n % width == 0 {
        0int
    } else {
        1
    }
}

/// The number of padding characters that fill `n` characters up to whole
/// rows of `width`.
pub open spec fn pad_len(n: int, width: int) -> int {
    if n % width == 0 {
        0
    } else {
        width - n % width
    }
}

/// `m` filled up with padding to whole rows of `width`.
pub open spec fn padded(m: Seq<char>, width: int) -> Seq<char> {
    m + Seq::new(pad_len(m.len() as int, width) as nat, |i: int| PADDING)
}

/// The first `i` characters of column `col` of the grid that holds `p` in
/// rows of `width`.
pub open spec fn column(p: Seq<char>, width: int, col: int, i: int) -> Seq<char>
    decreases i,
{
    if i <= 0 {
        Seq::empty()
    } else {
        column(p, width, col, i - 1).push(p[(i - 1) * width + col])
    }
}

/// The first `s` columns in reading order, each read from top to bottom.
pub open spec fn columns_upto(p: Seq<char>, key: Seq<char>, rows: int, s: int) -> Seq<char>
    decreases s,
{
    if s <= 0 {
        Seq::empty()
    } else {
        columns_upto(p, key, rows, s - 1) + column(
            p,
            key.len() as int,
            col_at_rank(key, s - 1, key.len() as int),
            rows,
        )
    }
}

/// `m`, padded, written in rows under `key` and read off column by column
/// in the order of the key.
pub open spec fn col_encrypt_spec(m: Seq<char>, key: Seq<char>) -> Seq<char> {
    let width = key.len() as int;
    let p = padded(m, width);
    columns_upto(p, key, p.len() as int / width, width)
}

/// The first `k` cells of row `i` of the grid whose columns, in reading
/// order, hold `rows` characters of `c` each. A cell past the end of `c` is
/// empty and gives nothing.
pub open spec fn row_read(c: Seq<char>, key: Seq<char>, rows: int, i: int, k: int) -> Seq<char>
    decreases k,
{
    if k <= 0 {
        Seq::empty()
    } else {
        let prev = row_read(c, key, rows, i, k - 1);
        let at = col_rank(key, k - 1) * rows + i;
        if at < c.len() {
            prev.push(c[at])
        } else {
            prev
        }
    }
}

/// The first `i` rows of that grid, each read from left to right.
pub open spec fn rows_read(c: Seq<char>, key: Seq<char>, rows: int, i: int) -> Seq<char>
    decreases i,
{
    if i <= 0 {
        Seq::empty()
    } else {
        rows_read(c, key, rows, i - 1) + row_read(c, key, rows, i - 1, key.len() as int)
    }
}

/// `c` written column by column in the order of the key and read off row
/// by row.
pub open spec fn col_decrypt_spec(c: Seq<char>, key: Seq<char>) -> Seq<char> {
    let rows = col_rows(c.len() as int, key.len() as int);
    rows_read(c, key, rows, rows)
}

/// What the transposition makes of `m`: an error for an empty key, else the
/// text read off the columns, or off the rows.
pub open spec fn col_trans_spec(m: Seq<char>, key: Seq<char>, direction: Direction) -> Result<
    Seq<char>,
    CipherError,
> {
    if key.len() == 0 {
        Err(CipherError::EmptyKey)
    } else {
        match direction {
            Direction::Encrypt => Ok(col_encrypt_spec(m, key)),
            Direction::Decrypt => Ok(col_decrypt_spec(m, key)),
        }
    }
}

/// The place of every column in the reading order.
fn key_ranks(key: &Vec<char>) -> (ranks: Vec<usize>)
    ensures
        ranks@.len() == key@.len(),
        forall|k: int| 0 <= k < key@.len() ==> #[trigger] ranks@[k] == col_rank(key@, k),
{
    let width = key.len();
    let mut ranks: Vec<usize> = Vec::new();
    let mut k: usize = 0;
    while k < width
        invariant
            k <= width,
            width == key@.len(),
            ranks@.len() == k,
            forall|t: int| 0 <= t < k ==> #[trigger] ranks@[t] == col_rank(key@, t),
        decreases width - k,
    {
        let c = key[k];
        let mut less: usize = 0;
        let mut same: usize = 0;
        let mut j: usize = 0;
        while j < width
            invariant
                j <= width,
                k < width,
                width == key@.len(),
                c == key@[k as int],
                less == count_less(key@, c, j as int),
                same == count_same(key@, c, if j < k { j as int } else { k as int }),
                less + same <= j,
            decreases width - j,
        {
            if key[j] < c {
                less += 1;
            } else if j < k && key[j] == c {
                same += 1;
            }
            j += 1;
        }
        ranks.push(less + same);
        k += 1;
    }
    ranks
}

/// The column that is read at each place of the reading order.
fn key_order(key: &Vec<char>, ranks: &Vec<usize>) -> (order: Vec<usize>)
    requires
        0 < key@.len(),
        ranks@.len() == key@.len(),
        forall|k: int| 0 <= k < key@.len() ==> #[trigger] ranks@[k] == col_rank(key@, k),
    ensures
        order@.len() == key@.len(),
        forall|s: int|
            0 <= s < key@.len() ==> #[trigger] order@[s] == col_at_rank(
                key@,
                s,
                key@.len() as int,
            ),
        forall|s: int| 0 <= s < key@.len() ==> #[trigger] order@[s] < key@.len(),
{
    let width = key.len();
    let mut order: Vec<usize> = Vec::new();
    let mut s: usize = 0;
    while s < width
        invariant
            s <= width,
            0 < width,
            width == key@.len(),
            ranks@.len() == width,
            forall|k: int| 0 <= k < width ==> #[trigger] ranks@[k] == col_rank(key@, k),
            order@.len() == s,
            forall|t: int| 0 <= t < s ==> #[trigger] order@[t] == col_at_rank(
                key@,
                t,
                width as int,
            ),
            forall|t: int| 0 <= t < s ==> #[trigger] order@[t] < width,
        decreases width - s,
    {
        let mut found: usize = 0;
        let mut k: usize = 0;
        while k < width
            invariant
                k <= width,
                0 < width,
                width == key@.len(),
                ranks@.len() == width,
                forall|t: int| 0 <= t < width ==> #[trigger] ranks@[t] == col_rank(key@, t),
                found == col_at_rank(key@, s as int, k as int),
                found < width,
            decreases width - k,
        {
            if ranks[k] == s {
                found = k;
            }
            k += 1;
        }
        order.push(found);
        s += 1;
    }
    order
}

/// Writes `input`, padded, in rows under `key` and reads it off column by
/// column.
fn col_encrypt(input: &Vec<char>, key: &Vec<char>) -> (out: Vec<char>)
    requires
        0 < key@.len(),
    ensures
        out@ == col_encrypt_spec(input@, key@),
{
    let width = key.len();
    let n = input.len();
    let over = n % width;
    let pad: usize = if over == 0 {
        0
    } else {
        width - over
    };
    let mut p: Vec<char> = Vec::new();
    let mut i: usize = 0;
    while i < n
        invariant
            i <= n,
            n == input@.len(),
            p@ == input@.take(i as int),
        decreases n - i,
    {
        p.push(input[i]);
        i += 1;
    }
    let mut j: usize = 0;
    while j < pad
        invariant
            j <= pad,
            p@ == input@ + Seq::new(j as nat, |t: int| PADDING),
        decreases pad - j,
    {
        p.push(PADDING);
        j += 1;
    }
    proof {
        lemma_padded_len(input@, width as int);
    }
    let rows = p.len() / width;
    let ranks = key_ranks(key);
    let order = key_order(key, &ranks);
    let mut out: Vec<char> = Vec::new();
    let mut s: usize = 0;
    while s < width
        invariant
            s <= width,
            0 < width,
            width == key@.len(),
            p@.len() == rows * width,
            order@.len() == width,
            forall|t: int| 0 <= t < width ==> #[trigger] order@[t] == col_at_rank(
                key@,
                t,
                width as int,
            ),
            forall|t: int| 0 <= t < width ==> #[trigger] order@[t] < width,
            out@ == columns_upto(p@, key@, rows as int, s as int),
        decreases width - s,
    {
        let col = order[s];
        let ghost head = out@;
        let mut i: usize = 0;
        while i < rows
            invariant
                i <= rows,
                col < width,
                p@.len() == rows * width,
                out@ == head + column(p@, width as int, col as int, i as int),
            decreases rows - i,
        {
            proof {
                lemma_cell_in_grid(i as int, col as int, rows as int, width as int);
            }
            out.push(p[i * width + col]);
            i += 1;
        }
        s += 1;
    }
    out
}

/// Writes `input` column by column in the order of the key and reads it
/// off row by row.
fn col_decrypt(input: &Vec<char>, key: &Vec<char>) -> (out: Vec<char>)
    requires
        0 < key@.len(),
    ensures
        out@ == col_decrypt_spec(input@, key@),
{
    let width = key.len();
    let n = input.len();
    let whole = n / width;
    proof {
        vstd::arithmetic::div_mod::lemma_small_mod(0, width as nat);
    }
    let rows: usize = if n == 0 || width == 1 || n % width == 0 {
        whole
    } else {
        proof {
            vstd::arithmetic::div_mod::lemma_div_decreases(n as int, width as int);
        }
        whole + 1
    };
    let ranks = key_ranks(key);
    let mut out: Vec<char> = Vec::new();
    let mut i: usize = 0;
    while i < rows
        invariant
            i <= rows,
            0 < width,
            width == key@.len(),
            n == input@.len(),
            ranks@.len() == width,
            forall|k: int| 0 <= k < width ==> #[trigger] ranks@[k] == col_rank(key@, k),
            out@ == rows_read(input@, key@, rows as int, i as int),
        decreases rows - i,
    {
        let ghost head = out@;
        let mut k: usize = 0;
        while k < width
            invariant
                k <= width,
                i < rows,
                width == key@.len(),
                n == input@.len(),
                ranks@.len() == width,
                forall|t: int| 0 <= t < width ==> #[trigger] ranks@[t] == col_rank(key@, t),
                out@ == head + row_read(input@, key@, rows as int, i as int, k as int),
            decreases width - k,
        {
            let rank = ranks[k];
            assert(rank * rows <= 0xffff_ffff_ffff_ffff * 0xffff_ffff_ffff_ffff)
                by (nonlinear_arith)
                requires
                    0 <= rank <= 0xffff_ffff_ffff_ffff,
                    0 <= rows <= 0xffff_ffff_ffff_ffff,
            ;
            let at: u128 = (rank as u128) * (rows as u128) + (i as u128);
            if at < n as u128 {
                out.push(input[at as usize]);
            }
            k += 1;
        }
        i += 1;
    }
    out
}

/// Transposes `message` by columns under `key`, or undoes that. The message
/// is first filled up with `*` to whole rows; undoing leaves that padding in
/// place. An empty key is an error.
pub fn col_trans_cipher(message: &str, key: &str, direction: Direction) -> (result: Result<
    String,
    CipherError,
>)
    ensures
        view_result(result) == col_trans_spec(message@, key@, direction),
{
    let key_chars = chars_of(key);
    if key_chars.len() == 0 {
        return Err(CipherError::EmptyKey);
    }
    let input = chars_of(message);
    let out = match direction {
        Direction::Encrypt => col_encrypt(&input, &key_chars),
        Direction::Decrypt => col_decrypt(&input, &key_chars),
    };
    Ok(string_of(&out))
}

/// Counts are never negative, and of `n` characters no more than `n` come
/// before `c` or are `c`.
pub proof fn lemma_counts_bounds(key: Seq<char>, c: char, n: int)
    requires
        0 <= n,
    ensures
        0 <= count_less(key, c, n),
        0 <= count_same(key, c, n),
        count_less(key, c, n) + count_same(key, c, n) <= n,
    decreases n,
{
    if n > 0 {
        lemma_counts_bounds(key, c, n - 1);
    }
}

/// Longer prefixes hold no fewer copies of `c`.
pub proof fn lemma_count_same_monotone(key: Seq<char>, c: char, a: int, b: int)
    requires
        0 <= a <= b,
    ensures
        count_same(key, c, a) <= count_same(key, c, b),
    decreases b,
{
    if b > a {
        lemma_count_same_monotone(key, c, a, b - 1);
    }
}

/// Every character that comes before `a` or is `a` comes before `b`, where
/// `a` comes before `b`.
pub proof fn lemma_count_less_gap(key: Seq<char>, a: char, b: char, n: int)
    requires
        0 <= n,
        a < b,
    ensures
        count_less(key, a, n) + count_same(key, a, n) <= count_less(key, b, n),
    decreases n,
{
    if n > 0 {
        lemma_count_less_gap(key, a, b, n - 1);
    }
}

/// The place of a column in the reading order is one of the places there
/// are.
pub proof fn lemma_rank_in_range(key: Seq<char>, k: int)
    requires
        0 <= k < key.len(),
    ensures
        0 <= col_rank(key, k) < key.len(),
{
    let c = key[k];
    let n = key.len() as int;
    lemma_counts_bounds(key, c, n);
    lemma_counts_bounds(key, c, k);
    lemma_count_same_monotone(key, c, k + 1, n);
}

/// Two columns are never read at the same place.
pub proof fn lemma_rank_injective(key: Seq<char>, j: int, k: int)
    requires
        0 <= j < key.len(),
        0 <= k < key.len(),
        j != k,
    ensures
        col_rank(key, j) != col_rank(key, k),
{
    let n = key.len() as int;
    let a = key[j];
    let b = key[k];
    lemma_counts_bounds(key, a, j);
    lemma_counts_bounds(key, b, k);
    if a == b {
        if j < k {
            lemma_count_same_monotone(key, a, j + 1, k);
        } else {
            lemma_count_same_monotone(key, a, k + 1, j);
        }
    } else if a < b {
        lemma_count_same_monotone(key, a, j + 1, n);
        lemma_count_less_gap(key, a, b, n);
    } else {
        lemma_count_same_monotone(key, b, k + 1, n);
        lemma_count_less_gap(key, b, a, n);
    }
}

/// The column read at the place of column `k` is column `k`.
pub proof fn lemma_at_rank_of_rank(key: Seq<char>, k: int, n: int)
    requires
        0 <= k < n <= key.len(),
    ensures
        col_at_rank(key, col_rank(key, k), n) == k,
    decreases n,
{
    if n - 1 != k {
        lemma_rank_injective(key, n - 1, k);
        lemma_at_rank_of_rank(key, k, n - 1);
    }
}

/// The column read at any place is one of the columns there are.
pub proof fn lemma_at_rank_in_range(key: Seq<char>, s: int, n: int)
    requires
        0 < key.len(),
        0 <= n <= key.len(),
    ensures
        0 <= col_at_rank(key, s, n) < key.len(),
    decreases n,
{
    if n > 0 {
        lemma_at_rank_in_range(key, s, n - 1);
    }
}

/// The padded message fills whole rows.
pub proof fn lemma_padded_len(m: Seq<char>, width: int)
    requires
        width > 0,
    ensures
        padded(m, width).len() == col_rows(m.len() as int, width) * width,
        padded(m, width).len() as int % width == 0,
        padded(m, width).len() as int / width == col_rows(m.len() as int, width),
        m.len() as int % width == 0 ==> padded(m, width) == m,
{
    let n = m.len() as int;
    let rows = col_rows(n, width);
    vstd::arithmetic::div_mod::lemma_fundamental_div_mod(n, width);
    assert(padded(m, width).len() == rows * width) by {
        vstd::arithmetic::mul::lemma_mul_is_distributive_add_other_way(width, n / width, 1);
        vstd::arithmetic::mul::lemma_mul_is_commutative(width, n / width);
        vstd::arithmetic::mul::lemma_mul_is_commutative(width, n / width + 1);
    }
    vstd::arithmetic::div_mod::lemma_fundamental_div_mod_converse(rows * width, width, rows, 0);
    if n % width == 0 {
        assert(padded(m, width) =~= m);
    }
}

/// A cell of a grid lies inside the grid.
pub proof fn lemma_cell_in_grid(i: int, k: int, rows: int, width: int)
    requires
        0 <= i < rows,
        0 <= k < width,
    ensures
        0 <= i * width + k < rows * width,
        0 <= k * rows + i < width * rows,
        width * rows == rows * width,
{
    assert(0 <= i * width + k < rows * width) by (nonlinear_arith)
        requires
            0 <= i < rows,
            0 <= k < width,
    ;
    assert(0 <= k * rows + i < width * rows) by (nonlinear_arith)
        requires
            0 <= i < rows,
            0 <= k < width,
    ;
}

/// A column read to row `i` holds `i` characters, the one of row `j` at
/// place `j`.
pub proof fn lemma_column_index(p: Seq<char>, width: int, col: int, i: int, j: int)
    requires
        0 <= j < i,
    ensures
        column(p, width, col, i).len() == i,
        column(p, width, col, i)[j] == p[j * width + col],
    decreases i,
{
    lemma_column_len(p, width, col, i - 1);
    if j < i - 1 {
        lemma_column_index(p, width, col, i - 1, j);
    }
}

/// A column read to row `i` holds `i` characters.
pub proof fn lemma_column_len(p: Seq<char>, width: int, col: int, i: int)
    requires
        0 <= i,
    ensures
        column(p, width, col, i).len() == i,
    decreases i,
{
    if i > 0 {
        lemma_column_len(p, width, col, i - 1);
    }
}

/// The first `s` columns hold `s` times `rows` characters.
pub proof fn lemma_columns_len(p: Seq<char>, key: Seq<char>, rows: int, s: int)
    requires
        0 <= s,
        0 <= rows,
    ensures
        columns_upto(p, key, rows, s).len() == s * rows,
    decreases s,
{
    if s > 0 {
        lemma_columns_len(p, key, rows, s - 1);
        lemma_column_len(p, key.len() as int, col_at_rank(key, s - 1, key.len() as int), rows);
        assert((s - 1) * rows + rows == s * rows) by (nonlinear_arith);
    } else {
        assert(0 * rows == 0);
    }
}

/// In the columns read one after the other, row `i` of the column read at
/// place `r` stands at `r * rows + i`.
pub proof fn lemma_columns_index(p: Seq<char>, key: Seq<char>, rows: int, s: int, r: int, i: int)
    requires
        0 <= r < s,
        0 <= i < rows,
    ensures
        0 <= r * rows + i < columns_upto(p, key, rows, s).len(),
        columns_upto(p, key, rows, s)[r * rows + i] == p[i * key.len() + col_at_rank(
            key,
            r,
            key.len() as int,
        )],
    decreases s,
{
    let width = key.len() as int;
    lemma_columns_len(p, key, rows, s);
    lemma_columns_len(p, key, rows, s - 1);
    lemma_cell_in_grid(i, r, rows, s);
    if r < s - 1 {
        lemma_cell_in_grid(i, r, rows, s - 1);
        lemma_columns_index(p, key, rows, s - 1, r, i);
    } else {
        lemma_column_index(p, width, col_at_rank(key, s - 1, width), rows, i);
    }
}

/// Of the text that the columns of `p` give, row `i` read to cell `k` is
/// row `i` of `p` up to cell `k`.
pub proof fn lemma_row_read_of_columns(p: Seq<char>, key: Seq<char>, rows: int, i: int, k: int)
    requires
        0 < key.len(),
        0 <= i < rows,
        0 <= k <= key.len(),
        p.len() == rows * key.len(),
    ensures
        row_read(columns_upto(p, key, rows, key.len() as int), key, rows, i, k) == p.subrange(
            i * key.len(),
            i * key.len() + k,
        ),
    decreases k,
{
    let width = key.len() as int;
    let e = columns_upto(p, key, rows, width);
    lemma_columns_len(p, key, rows, width);
    lemma_cell_in_grid(i, 0, rows, width);
    if k > 0 {
        lemma_row_read_of_columns(p, key, rows, i, k - 1);
        lemma_rank_in_range(key, k - 1);
        let r = col_rank(key, k - 1);
        lemma_columns_index(p, key, rows, width, r, i);
        lemma_at_rank_of_rank(key, k - 1, width);
        lemma_cell_in_grid(i, k - 1, rows, width);
        assert(e[r * rows + i] == p[i * width + (k - 1)]);
        assert(p.subrange(i * width, i * width + k) =~= p.subrange(
            i * width,
            i * width + k - 1,
        ).push(p[i * width + k - 1]));
    } else {
        assert(p.subrange(i * width, i * width + 0) =~= Seq::<char>::empty());
    }
}

/// Of the text that the columns of `p` give, the first `i` rows are the
/// first `i` rows of `p`.
pub proof fn lemma_rows_read_of_columns(p: Seq<char>, key: Seq<char>, rows: int, i: int)
    requires
        0 < key.len(),
        0 <= i <= rows,
        p.len() == rows * key.len(),
    ensures
        rows_read(columns_upto(p, key, rows, key.len() as int), key, rows, i) == p.take(
            i * key.len(),
        ),
    decreases i,
{
    let width = key.len() as int;
    if i > 0 {
        lemma_rows_read_of_columns(p, key, rows, i - 1);
        lemma_row_read_of_columns(p, key, rows, i - 1, width);
        lemma_cell_in_grid(i - 1, 0, rows, width);
        assert((i - 1) * width + width == i * width) by (nonlinear_arith);
        assert(i * width <= rows * width) by (nonlinear_arith)
            requires
                i <= rows,
                width > 0,
        ;
    } else {
        assert(p.take(0 * width) =~= Seq::<char>::empty());
    }
}

/// Reading off the rows what was read off the columns gives the message
/// back, with the padding that filled its last row.
pub proof fn lemma_columnar_round_trip(m: Seq<char>, key: Seq<char>)
    requires
        key.len() > 0,
    ensures
        col_decrypt_spec(col_encrypt_spec(m, key), key) == padded(m, key.len() as int),
        m.len() % key.len() == 0 ==> col_decrypt_spec(col_encrypt_spec(m, key), key) == m,
{
    let width = key.len() as int;
    let p = padded(m, width);
    lemma_padded_len(m, width);
    let rows = p.len() as int / width;
    let e = col_encrypt_spec(m, key);
    lemma_columns_len(p, key, rows, width);
    vstd::arithmetic::div_mod::lemma_fundamental_div_mod_converse(e.len() as int, width, rows, 0);
    lemma_rows_read_of_columns(p, key, rows, rows);
}

} // verus!
