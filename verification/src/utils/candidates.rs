//! The candidates of a search: a decoded text with the label of the cipher
//! and key that gave it, before and after it has been scored.

use vstd::prelude::*;
use vstd::string::StringExecFns;
use crate::ciphers::{CipherError, CipherKind};
use crate::text::string_of;
use crate::utils::numbers::{decimal_chars, decimal_spec};

verus! {

/// A decoded text and the label of what decoded it.
#[derive(Debug)]
pub struct Decoded {
    pub text: String,
    pub label: String,
}

/// A decoded text and its label as sequences of characters.
pub struct DecodedView {
    pub text: Seq<char>,
    pub label: Seq<char>,
}

impl View for Decoded {
    type V = DecodedView;

    open spec fn view(&self) -> DecodedView {
        DecodedView { text: self.text@, label: self.label@ }
    }
}

/// The candidates of `v`, each as sequences of characters.
pub open spec fn decoded_views(v: Seq<Decoded>) -> Seq<DecodedView> {
    Seq::new(v.len(), |i: int| v[i]@)
}

/// The texts of `keys` as sequences of characters.
pub open spec fn key_views(keys: Seq<String>) -> Seq<Seq<char>> {
    Seq::new(keys.len(), |i: int| keys[i]@)
}

/// The name under which a cipher appears in labels.
pub open spec fn kind_name(kind: CipherKind) -> Seq<char> {
    match kind {
        CipherKind::Caesar => "Caesar"@,
        CipherKind::Vigenere => "Vigenere"@,
        CipherKind::Beaufort => "Beaufort"@,
        CipherKind::Autokey => "Autokey"@,
        CipherKind::Atbash => "Atbash"@,
        CipherKind::Rot13 => "ROT13"@,
        CipherKind::Affine => "Affine"@,
        CipherKind::Baconian => "Bacon"@,
        CipherKind::Railfence => "Railfence"@,
        CipherKind::Polybius => "Polybius"@,
        CipherKind::SimpleSub => "Simplesub"@,
        CipherKind::Columnar => "Columnar"@,
        CipherKind::Base64 => "Base64"@,
    }
}

/// The label of a text that `kind` decoded under the dictionary key `key`.
pub open spec fn dictionary_label(kind: CipherKind, key: Seq<char>) -> Seq<char> {
    kind_name(kind) + " - "@ + key
}

/// The label of a text that the rail fence decoded with `rails` rails.
pub open spec fn rails_label(rails: nat) -> Seq<char> {
    "Railfence["@ + decimal_spec(rails) + "]"@
}

/// The candidate, if any, that a decoding gives: the decoded text under
/// `label`, or nothing where the decoding failed.
pub open spec fn candidate_of(result: Result<Seq<char>, CipherError>, label: Seq<char>) -> Seq<
    DecodedView,
> {
    match result {
        Ok(text) => seq![DecodedView { text: text, label: label }],
        Err(_) => Seq::empty(),
    }
}

/// The candidate `decoded` with the score `score`.
pub fn with_score(decoded: Decoded, score: i64) -> (c: crate::utils::ranking::ScoredCandidate)
    ensures
        c@ == (crate::utils::ranking::CandidateView {
            score: score as int,
            text: decoded@.text,
            label: decoded@.label,
        }),
{
    crate::utils::ranking::ScoredCandidate { score: score, text: decoded.text, label: decoded.label }
}

/// The name under which a cipher appears in labels.
pub fn kind_label(kind: CipherKind) -> (name: &'static str)
    ensures
        name@ == kind_name(kind),
{
    match kind {
        CipherKind::Caesar => "Caesar",
        CipherKind::Vigenere => "Vigenere",
        CipherKind::Beaufort => "Beaufort",
        CipherKind::Autokey => "Autokey",
        CipherKind::Atbash => "Atbash",
        CipherKind::Rot13 => "ROT13",
        CipherKind::Affine => "Affine",
        CipherKind::Baconian => "Bacon",
        CipherKind::Railfence => "Railfence",
        CipherKind::Polybius => "Polybius",
        CipherKind::SimpleSub => "Simplesub",
        CipherKind::Columnar => "Columnar",
        CipherKind::Base64 => "Base64",
    }
}

/// The label of a text that `kind` decoded under the dictionary key `key`.
pub fn make_dictionary_label(kind: CipherKind, key: &str) -> (label: String)
    ensures
        label@ == dictionary_label(kind, key@),
{
    let mut label = kind_label(kind).to_owned();
    label.append(" - ");
    label.append(key);
    label
}

/// The label of a text that the rail fence decoded with `rails` rails.
pub fn make_rails_label(rails: usize) -> (label: String)
    ensures
        label@ == rails_label(rails as nat),
{
    let mut label = "Railfence[".to_owned();
    let digits = string_of(&decimal_chars(rails));
    label.append(digits.as_str());
    label.append("]");
    label
}

/// Adds to `out` the candidate, if any, that a decoding gives.
pub fn push_candidate(out: &mut Vec<Decoded>, result: Result<String, CipherError>, label: String)
    ensures
        decoded_views(final(out)@) == decoded_views(old(out)@) + candidate_of(
            crate::ciphers::view_result(result),
            label@,
        ),
{
    let ghost before = out@;
    match result {
        Ok(text) => {
            out.push(Decoded { text: text, label: label });
            assert(decoded_views(out@) =~= decoded_views(before) + candidate_of(
                crate::ciphers::view_result(result),
                label@,
            ));
        },
        Err(_) => {
            assert(decoded_views(out@) =~= decoded_views(before) + candidate_of(
                crate::ciphers::view_result(result),
                label@,
            ));
        },
    }
}

} // verus!
