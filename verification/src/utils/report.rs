//! The lines of a report: the score in round brackets, the candidate
//! text, and the label in square brackets.

use vstd::prelude::*;
use vstd::string::StringExecFns;
use crate::text::{chars_of, string_of, trim_chars, trimmed};

verus! {

/// The line that reports a candidate: `(score): text [label]` and a line
/// feed, the text and the label without the white space at their ends.
pub open spec fn line_spec(score: Seq<char>, text: Seq<char>, label: Seq<char>) -> Seq<char> {
    "("@ + score + "): "@ + trimmed(text) + " ["@ + trimmed(label) + "]\n"@
}

/// The entry of a candidate in the list of the best: its line and an empty
/// line behind it.
pub open spec fn entry_spec(score: Seq<char>, text: Seq<char>, label: Seq<char>) -> Seq<char> {
    line_spec(score, text, label) + "\n"@
}

/// `s` without the white space at its ends.
fn trim_str(s: &str) -> (r: String)
    ensures
        r@ == trimmed(s@),
{
    string_of(&trim_chars(&chars_of(s)))
}

/// Writes the line that reports a candidate, from its score as it is to be
/// shown, its text and its label.
pub fn format_line(score: &str, text: &str, label: &str) -> (line: String)
    ensures
        line@ == line_spec(score@, text@, label@),
{
    let mut line = "(".to_owned();
    line.append(score);
    line.append("): ");
    line.append(trim_str(text).as_str());
    line.append(" [");
    line.append(trim_str(label).as_str());
    line.append("]\n");
    line
}

/// Writes the entry of a candidate in the list of the best.
pub fn format_entry(score: &str, text: &str, label: &str) -> (entry: String)
    ensures
        entry@ == entry_spec(score@, text@, label@),
{
    let mut entry = format_line(score, text, label);
    entry.append("\n");
    entry
}

} // verus!
