//! The two ways of searching a cipher's keys. A bounded sweep tries every
//! value of a small range: every shift, every pair of affine numbers, every
//! number of rails. A dictionary sweep tries every key of a list, which may
//! be cut into chunks that are swept apart and put together in their order.
//!
//! A key that the cipher refuses gives no candidate, and neither does an
//! empty message.

use vstd::prelude::*;
use crate::ciphers::{CipherKind, Direction};
use crate::ciphers::affine::{affine_cipher, affine_spec};
use crate::ciphers::apply::{apply_cipher, transform_spec};
use crate::ciphers::atbash::{atbash_cipher, atbash_spec};
use crate::ciphers::baconian::{bacon_decode_spec, baconian_decode};
use crate::ciphers::caesar::{caesar_cipher, caesar_spec};
use crate::ciphers::polybius::{polybius_cipher, polybius_spec};
use crate::ciphers::railfence::{rail_decrypt_spec, railfence_cipher};
use crate::ciphers::rot13::{rot13_cipher, rot13_spec};
use crate::text::chars_of;
use crate::utils::candidates::{
    candidate_of, decoded_views, dictionary_label, key_views, kind_label, kind_name,
    make_dictionary_label, make_rails_label, push_candidate, rails_label, Decoded, DecodedView,
};

verus! {

/// How the keys of a cipher are searched.
#[derive(Clone, Copy, Debug, PartialEq, Eq, Structural)]
pub enum Sweep {
    /// Every value of a small closed range is tried.
    Bounded,
    /// Every key of a dictionary is tried.
    Dictionary,
    /// The cipher is not searched.
    Unswept,
}

/// The largest shift that the sweep of the shift cipher tries.
pub const LAST_SHIFT: i32 = 80;

/// The largest affine number that the sweep of the affine cipher tries,
/// for the multiplier and for the number added.
pub const LAST_AFFINE: i32 = 26;

/// The number of keys in a chunk of a dictionary.
pub const CHUNK_SIZE: usize = 1000;

/// How the keys of `kind` are searched.
pub open spec fn sweep_of(kind: CipherKind) -> Sweep {
    match kind {
        CipherKind::Caesar
        | CipherKind::Atbash
        | CipherKind::Rot13
        | CipherKind::Polybius
        | CipherKind::Affine
        | CipherKind::Baconian
        | CipherKind::Railfence => Sweep::Bounded,
        CipherKind::Vigenere
        | CipherKind::Beaufort
        | CipherKind::Autokey
        | CipherKind::SimpleSub
        | CipherKind::Columnar => Sweep::Dictionary,
        CipherKind::Base64 => Sweep::Unswept,
    }
}

/// How the keys of `kind` are searched.
pub fn sweep_strategy(kind: CipherKind) -> (s: Sweep)
    ensures
        s == sweep_of(kind),
{
    match kind {
        CipherKind::Caesar
        | CipherKind::Atbash
        | CipherKind::Rot13
        | CipherKind::Polybius
        | CipherKind::Affine
        | CipherKind::Baconian
        | CipherKind::Railfence => Sweep::Bounded,
        CipherKind::Vigenere
        | CipherKind::Beaufort
        | CipherKind::Autokey
        | CipherKind::SimpleSub
        | CipherKind::Columnar => Sweep::Dictionary,
        CipherKind::Base64 => Sweep::Unswept,
    }
}

/// The candidates of the shift cipher: the message shifted back by 1, by
/// 2, and so on up to 80.
pub open spec fn caesar_candidates(m: Seq<char>) -> Seq<DecodedView> {
    Seq::new(
        80,
        |i: int|
            DecodedView { text: caesar_spec(m, -(i + 1)), label: kind_name(CipherKind::Caesar) },
    )
}

/// The candidates of the first `t` pairs of affine numbers, the pairs
/// counted with the number added running from 0 to 26 under each multiplier
/// from 0 to 26. A multiplier that cannot be undone gives none.
pub open spec fn affine_candidates(m: Seq<char>, t: int) -> Seq<DecodedView>
    decreases t,
{
    if t <= 0 {
        Seq::empty()
    } else {
        affine_candidates(m, t - 1) + candidate_of(
            affine_spec(m, (t - 1) / 27, (t - 1) % 27, Direction::Decrypt),
            kind_name(CipherKind::Affine),
        )
    }
}

/// How many numbers of rails the sweep of the rail fence tries on a
/// message of `n` characters: every number from 2 up to `n`.
pub open spec fn rail_sweep_count(n: int) -> int {
    if n < 2 {
        0
    } else if n > 0x7fff_ffff {
        0x7fff_fffe
    } else {
        n - 1
    }
}

/// The candidates of the rail fence: the message written back along 2
/// rails, along 3, and so on.
pub open spec fn rail_candidates(m: Seq<char>) -> Seq<DecodedView> {
    Seq::new(
        rail_sweep_count(m.len() as int) as nat,
        |i: int|
            DecodedView { text: rail_decrypt_spec(m, i + 2), label: rails_label((i + 2) as nat) },
    )
}

/// The candidates that the bounded sweep of `kind` finds for `m`. An empty
/// message and a cipher that has no bounded sweep give none.
pub open spec fn bounded_spec(kind: CipherKind, m: Seq<char>) -> Seq<DecodedView> {
    if m.len() == 0 {
        Seq::empty()
    } else {
        match kind {
            CipherKind::Caesar => caesar_candidates(m),
            CipherKind::Atbash => seq![
                DecodedView { text: atbash_spec(m), label: kind_name(kind) },
            ],
            CipherKind::Rot13 => seq![DecodedView { text: rot13_spec(m), label: kind_name(kind) }],
            CipherKind::Polybius => seq![
                DecodedView { text: polybius_spec(m, Direction::Decrypt), label: kind_name(kind) },
            ],
            CipherKind::Affine => affine_candidates(m, 729),
            CipherKind::Baconian => candidate_of(bacon_decode_spec(m), kind_name(kind)),
            CipherKind::Railfence => rail_candidates(m),
            _ => Seq::empty(),
        }
    }
}

/// The candidate, if any, that `kind` finds for `m` under the dictionary
/// key `key`.
pub open spec fn key_candidate(kind: CipherKind, m: Seq<char>, key: Seq<char>) -> Seq<
    DecodedView,
> {
    if m.len() == 0 || sweep_of(kind) != Sweep::Dictionary {
        Seq::empty()
    } else {
        candidate_of(transform_spec(kind, m, key, Direction::Decrypt), dictionary_label(kind, key))
    }
}

/// The candidates that `kind` finds for `m` under the keys `keys`, in the
/// order of the keys.
pub open spec fn dictionary_spec(kind: CipherKind, m: Seq<char>, keys: Seq<Seq<char>>) -> Seq<
    DecodedView,
>
    decreases keys.len(),
{
    if keys.len() == 0 {
        Seq::empty()
    } else {
        dictionary_spec(kind, m, keys.drop_last()) + key_candidate(kind, m, keys.last())
    }
}

/// How many chunks a dictionary of `total` keys is cut into.
pub open spec fn chunk_count_spec(total: int) -> int {
    total / 1000 + if total % 1000 == 0 {
        0int
    } else {
        1
    }
}

/// Where chunk `index` of a dictionary of `total` keys starts.
pub open spec fn chunk_start(total: int, index: int) -> int {
    if index * 1000 < total {
        index * 1000
    } else {
        total
    }
}

/// The keys of chunk `index` of `keys`.
pub open spec fn chunk_of(keys: Seq<Seq<char>>, index: int) -> Seq<Seq<char>> {
    keys.subrange(
        chunk_start(keys.len() as int, index),
        chunk_start(keys.len() as int, index + 1),
    )
}

/// The candidates of the first `count` chunks of `keys`, one chunk after
/// the other.
pub open spec fn chunks_spec(kind: CipherKind, m: Seq<char>, keys: Seq<Seq<char>>, count: int)
    -> Seq<DecodedView>
    decreases count,
{
    if count <= 0 {
        Seq::empty()
    } else {
        chunks_spec(kind, m, keys, count - 1) + dictionary_spec(
            kind,
            m,
            chunk_of(keys, count - 1),
        )
    }
}

/// The candidates that `kind` finds for `m`, by its bounded sweep or by
/// its sweep of the dictionary `keys`.
pub open spec fn kind_candidates(kind: CipherKind, m: Seq<char>, keys: Seq<Seq<char>>) -> Seq<
    DecodedView,
> {
    match sweep_of(kind) {
        Sweep::Bounded => bounded_spec(kind, m),
        Sweep::Dictionary => dictionary_spec(kind, m, keys),
        Sweep::Unswept => Seq::empty(),
    }
}

/// The candidates that the ciphers `kinds` find for `m`, cipher after
/// cipher in the order of `kinds`.
pub open spec fn all_candidates(kinds: Seq<CipherKind>, m: Seq<char>, keys: Seq<Seq<char>>) -> Seq<
    DecodedView,
>
    decreases kinds.len(),
{
    if kinds.len() == 0 {
        Seq::empty()
    } else {
        all_candidates(kinds.drop_last(), m, keys) + kind_candidates(kinds.last(), m, keys)
    }
}

/// How many keys of a dictionary of `total` keys are tried under a limit
/// of `limit` keys.
pub open spec fn limited_spec(total: int, limit: int) -> int {
    if limit < total {
        limit
    } else {
        total
    }
}

/// Tries every value of the small range of keys of `kind` on `message`.
pub fn bounded_sweep(message: &str, kind: CipherKind) -> (out: Vec<Decoded>)
    ensures
        decoded_views(out@) == bounded_spec(kind, message@),
{
    let mut out: Vec<Decoded> = Vec::new();
    assert(decoded_views(out@) =~= Seq::<DecodedView>::empty());
    if message.is_empty() {
        return out;
    }
    match kind {
        CipherKind::Caesar => {
            let mut shift: i32 = 1;
            while shift <= LAST_SHIFT
                invariant
                    1 <= shift <= 81,
                    kind == CipherKind::Caesar,
                    out@.len() == shift - 1,
                    forall|i: int|
                        0 <= i < shift - 1 ==> (#[trigger] out@[i])@ == (DecodedView {
                            text: caesar_spec(message@, -(i + 1)),
                            label: kind_name(CipherKind::Caesar),
                        }),
                decreases 81 - shift,
            {
                let text = caesar_cipher(message, shift, Direction::Decrypt);
                out.push(Decoded { text: text, label: kind_label(kind).to_owned() });
                shift += 1;
            }
            assert(decoded_views(out@) =~= caesar_candidates(message@));
        },
        CipherKind::Atbash => {
            let text = atbash_cipher(message);
            out.push(Decoded { text: text, label: kind_label(kind).to_owned() });
            assert(decoded_views(out@) =~= bounded_spec(kind, message@));
        },
        CipherKind::Rot13 => {
            let text = rot13_cipher(message);
            out.push(Decoded { text: text, label: kind_label(kind).to_owned() });
            assert(decoded_views(out@) =~= bounded_spec(kind, message@));
        },
        CipherKind::Polybius => {
            let text = polybius_cipher(message, Direction::Decrypt);
            out.push(Decoded { text: text, label: kind_label(kind).to_owned() });
            assert(decoded_views(out@) =~= bounded_spec(kind, message@));
        },
        CipherKind::Affine => {
            let mut a: i32 = 0;
            while a <= LAST_AFFINE
                invariant
                    0 <= a <= 27,
                    kind == CipherKind::Affine,
                    decoded_views(out@) == affine_candidates(message@, a * 27),
                decreases 27 - a,
            {
                let mut b: i32 = 0;
                while b <= LAST_AFFINE
                    invariant
                        0 <= a <= 26,
                        0 <= b <= 27,
                        kind == CipherKind::Affine,
                        decoded_views(out@) == affine_candidates(message@, a * 27 + b),
                    decreases 27 - b,
                {
                    let result = affine_cipher(message, a, b, Direction::Decrypt);
                    assert((a * 27 + b) / 27 == a && (a * 27 + b) % 27 == b);
                    push_candidate(&mut out, result, kind_label(kind).to_owned());
                    b += 1;
                }
                a += 1;
            }
        },
        CipherKind::Baconian => {
            let result = baconian_decode(message);
            push_candidate(&mut out, result, kind_label(kind).to_owned());
        },
        CipherKind::Railfence => {
            let n = chars_of(message).len();
            let last: usize = if n > 0x7fff_ffff {
                0x7fff_ffff
            } else {
                n
            };
            let mut rails: usize = 2;
            while rails <= last
                invariant
                    2 <= rails,
                    kind == CipherKind::Railfence,
                    last <= 0x7fff_ffff,
                    last <= n,
                    n == message@.len(),
                    rails <= last + 1 || last < 2,
                    last >= 2 ==> out@.len() == rails - 2,
                    last < 2 ==> out@.len() == 0,
                    forall|i: int|
                        0 <= i < out@.len() ==> (#[trigger] out@[i])@ == (DecodedView {
                            text: rail_decrypt_spec(message@, i + 2),
                            label: rails_label((i + 2) as nat),
                        }),
                decreases last + 1 - rails,
            {
                let result = railfence_cipher(message, rails as i32, Direction::Decrypt);
                match result {
                    Ok(text) => {
                        out.push(Decoded { text: text, label: make_rails_label(rails) });
                    },
                    Err(_) => {
                        // The rails fit the message, so the cipher refuses nothing.
                        assert(false);
                    },
                }
                rails += 1;
            }
            assert(decoded_views(out@) =~= rail_candidates(message@));
        },
        _ => {},
    }
    out
}

/// Tries on `message` the keys of `keys` from place `from` up to, not
/// including, place `to`.
fn sweep_keys(message: &str, kind: CipherKind, keys: &Vec<String>, from: usize, to: usize)
    -> (out: Vec<Decoded>)
    requires
        from <= to <= keys@.len(),
    ensures
        decoded_views(out@) == dictionary_spec(
            kind,
            message@,
            key_views(keys@).subrange(from as int, to as int),
        ),
{
    let mut out: Vec<Decoded> = Vec::new();
    let ghost all = key_views(keys@);
    assert(decoded_views(out@) =~= Seq::<DecodedView>::empty());
    assert(all.subrange(from as int, from as int) =~= Seq::<Seq<char>>::empty());
    let dictionary = match sweep_strategy(kind) {
        Sweep::Dictionary => true,
        _ => false,
    };
    let mut i: usize = from;
    while i < to
        invariant
            from <= i <= to <= keys@.len(),
            all == key_views(keys@),
            dictionary == (sweep_of(kind) == Sweep::Dictionary),
            decoded_views(out@) == dictionary_spec(
                kind,
                message@,
                all.subrange(from as int, i as int),
            ),
        decreases to - i,
    {
        let key = keys[i].as_str();
        let ghost next = all.subrange(from as int, i + 1);
        assert(next.drop_last() =~= all.subrange(from as int, i as int));
        assert(next.last() == key@);
        if dictionary {
            let result = apply_cipher(kind, message, key, Direction::Decrypt);
            push_candidate(&mut out, result, make_dictionary_label(kind, key));
        } else {
            assert(decoded_views(out@) + Seq::<DecodedView>::empty() =~= decoded_views(out@));
        }
        i += 1;
    }
    out
}

/// Tries every key of `keys` on `message`.
pub fn dictionary_sweep(message: &str, kind: CipherKind, keys: &Vec<String>) -> (out: Vec<
    Decoded,
>)
    ensures
        decoded_views(out@) == dictionary_spec(kind, message@, key_views(keys@)),
{
    assert(key_views(keys@).subrange(0, keys@.len() as int) =~= key_views(keys@));
    sweep_keys(message, kind, keys, 0, keys.len())
}

/// How many chunks a dictionary of `total` keys is cut into.
pub fn chunk_count(total: usize) -> (count: usize)
    ensures
        count == chunk_count_spec(total as int),
{
    if total % CHUNK_SIZE == 0 {
        total / CHUNK_SIZE
    } else {
        total / CHUNK_SIZE + 1
    }
}

/// Where chunk `index` of a dictionary of `total` keys starts and ends.
pub fn chunk_bounds(total: usize, index: usize) -> (bounds: (usize, usize))
    ensures
        bounds.0 == chunk_start(total as int, index as int),
        bounds.1 == chunk_start(total as int, index + 1),
        bounds.0 <= bounds.1 <= total,
        bounds.1 - bounds.0 <= 1000,
{
    if index >= total / CHUNK_SIZE + 1 {
        return (total, total);
    }
    let start = index * CHUNK_SIZE;
    if start >= total {
        (total, total)
    } else if total - start <= CHUNK_SIZE {
        (start, total)
    } else {
        (start, start + CHUNK_SIZE)
    }
}

/// Tries on `message` the keys of chunk `index` of `keys`.
pub fn sweep_chunk(message: &str, kind: CipherKind, keys: &Vec<String>, index: usize) -> (out: Vec<
    Decoded,
>)
    ensures
        decoded_views(out@) == dictionary_spec(kind, message@, chunk_of(key_views(keys@), index as int)),
{
    let (from, to) = chunk_bounds(keys.len(), index);
    sweep_keys(message, kind, keys, from, to)
}

/// How many keys of a dictionary of `total` keys are tried under a limit
/// of `limit` keys.
pub fn limited_len(total: usize, limit: usize) -> (count: usize)
    ensures
        count == limited_spec(total as int, limit as int),
        count <= total,
{
    if limit < total {
        limit
    } else {
        total
    }
}

/// Searches the keys of `kind` on `message`: the small range of its keys,
/// or the dictionary `keys`.
pub fn sweep_kind(message: &str, kind: CipherKind, keys: &Vec<String>) -> (out: Vec<Decoded>)
    ensures
        decoded_views(out@) == kind_candidates(kind, message@, key_views(keys@)),
{
    match sweep_strategy(kind) {
        Sweep::Bounded => bounded_sweep(message, kind),
        Sweep::Dictionary => dictionary_sweep(message, kind, keys),
        Sweep::Unswept => {
            let out: Vec<Decoded> = Vec::new();
            out
        },
    }
}

/// Searches the keys of every cipher of `kinds` on `message`, one cipher
/// after the other.
pub fn sweep_all(message: &str, kinds: &Vec<CipherKind>, keys: &Vec<String>) -> (out: Vec<Decoded>)
    ensures
        decoded_views(out@) == all_candidates(kinds@, message@, key_views(keys@)),
{
    let mut out: Vec<Decoded> = Vec::new();
    assert(decoded_views(out@) =~= Seq::<DecodedView>::empty());
    assert(kinds@.take(0) =~= Seq::<CipherKind>::empty());
    let mut i: usize = 0;
    while i < kinds.len()
        invariant
            i <= kinds@.len(),
            decoded_views(out@) == all_candidates(
                kinds@.take(i as int),
                message@,
                key_views(keys@),
            ),
        decreases kinds@.len() - i,
    {
        let mut part = sweep_kind(message, kinds[i], keys);
        let ghost before = out@;
        let ghost added = part@;
        out.append(&mut part);
        assert(decoded_views(out@) =~= decoded_views(before) + decoded_views(added));
        assert(kinds@.take(i + 1).drop_last() =~= kinds@.take(i as int));
        i += 1;
    }
    assert(kinds@.take(kinds@.len() as int) =~= kinds@);
    out
}

/// The sweep of the shift cipher finds the message: what was shifted by a
/// shift from 1 to 80 comes back as the candidate of that shift.
pub proof fn lemma_caesar_sweep_finds(m: Seq<char>, shift: int)
    requires
        m.len() > 0,
        1 <= shift <= 80,
    ensures
        bounded_spec(CipherKind::Caesar, caesar_spec(m, shift)).len() == 80,
        bounded_spec(CipherKind::Caesar, caesar_spec(m, shift))[shift - 1].text == m,
{
    crate::ciphers::caesar::lemma_caesar_round_trip(m, shift);
}

/// The sweep of a dictionary finds the message where the dictionary holds
/// the key: every key of the list that the cipher accepts has its candidate
/// among those found.
pub proof fn lemma_dictionary_sweep_finds(
    kind: CipherKind,
    m: Seq<char>,
    keys: Seq<Seq<char>>,
    at: int,
)
    requires
        0 <= at < keys.len(),
        m.len() > 0,
        sweep_of(kind) == Sweep::Dictionary,
        transform_spec(kind, m, keys[at], Direction::Decrypt) is Ok,
    ensures
        dictionary_spec(kind, m, keys).contains(
            DecodedView {
                text: transform_spec(kind, m, keys[at], Direction::Decrypt)->Ok_0,
                label: dictionary_label(kind, keys[at]),
            },
        ),
    decreases keys.len(),
{
    let want = DecodedView {
        text: transform_spec(kind, m, keys[at], Direction::Decrypt)->Ok_0,
        label: dictionary_label(kind, keys[at]),
    };
    let rest = dictionary_spec(kind, m, keys.drop_last());
    let last = key_candidate(kind, m, keys.last());
    if at == keys.len() - 1 {
        assert((rest + last)[rest.len() as int] == want);
    } else {
        lemma_dictionary_sweep_finds(kind, m, keys.drop_last(), at);
        let k = choose|k: int| 0 <= k < rest.len() && rest[k] == want;
        assert((rest + last)[k] == want);
    }
}

/// The candidates of two lists of keys, one after the other, are the
/// candidates of the two lists put together.
pub proof fn lemma_dictionary_concat(
    kind: CipherKind,
    m: Seq<char>,
    a: Seq<Seq<char>>,
    b: Seq<Seq<char>>,
)
    ensures
        dictionary_spec(kind, m, a + b) == dictionary_spec(kind, m, a) + dictionary_spec(
            kind,
            m,
            b,
        ),
    decreases b.len(),
{
    if b.len() == 0 {
        assert(a + b =~= a);
        assert(dictionary_spec(kind, m, a) + Seq::<DecodedView>::empty() =~= dictionary_spec(
            kind,
            m,
            a,
        ));
    } else {
        lemma_dictionary_concat(kind, m, a, b.drop_last());
        assert((a + b).drop_last() =~= a + b.drop_last());
        assert((a + b).last() == b.last());
        assert(dictionary_spec(kind, m, a + b) =~= dictionary_spec(kind, m, a) + dictionary_spec(
            kind,
            m,
            b,
        ));
    }
}

/// The candidates of the first `count` chunks are the candidates of the
/// keys that those chunks hold.
pub proof fn lemma_chunks_prefix(kind: CipherKind, m: Seq<char>, keys: Seq<Seq<char>>, count: int)
    requires
        0 <= count,
    ensures
        chunks_spec(kind, m, keys, count) == dictionary_spec(
            kind,
            m,
            keys.take(chunk_start(keys.len() as int, count)),
        ),
    decreases count,
{
    let total = keys.len() as int;
    if count == 0 {
        assert(keys.take(0) =~= Seq::<Seq<char>>::empty());
    } else {
        lemma_chunks_prefix(kind, m, keys, count - 1);
        let a = keys.take(chunk_start(total, count - 1));
        let b = chunk_of(keys, count - 1);
        lemma_dictionary_concat(kind, m, a, b);
        assert(a + b =~= keys.take(chunk_start(total, count)));
    }
}

/// Sweeping a dictionary chunk by chunk and putting the candidates
/// together in the order of the chunks gives what sweeping it in one go
/// gives, however the chunks were shared out.
pub proof fn lemma_chunks_cover(kind: CipherKind, m: Seq<char>, keys: Seq<Seq<char>>)
    ensures
        chunks_spec(kind, m, keys, chunk_count_spec(keys.len() as int)) == dictionary_spec(
            kind,
            m,
            keys,
        ),
{
    let total = keys.len() as int;
    let count = chunk_count_spec(total);
    lemma_chunks_prefix(kind, m, keys, count);
    assert(keys.take(total) =~= keys);
}

} // verus!
