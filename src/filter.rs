//! The search predicate applied to catalog entries.
use vstd::prelude::*;

verus! {

/// `needle` occurs in `hay` as a contiguous run of characters.
pub open spec fn contains_seq(hay: Seq<char>, needle: Seq<char>) -> bool {
    exists|i: int|
        0 <= i && i + needle.len() <= hay.len() && #[trigger] hay.subrange(i, i + needle.len())
            == needle
}

/// An entry is shown for `term` when the term is empty, or occurs in its tag
/// string or in its file name (case-sensitive, no normalisation).
pub open spec fn matches_spec(file_name: Seq<char>, tag_string: Seq<char>, term: Seq<char>) -> bool {
    term.len() == 0 || contains_seq(tag_string, term) || contains_seq(file_name, term)
}

/// Relies on `str::contains` with a `&str` pattern: true exactly when the
/// pattern occurs as a substring.
#[verifier::external_body]
fn str_contains(hay: &str, needle: &str) -> (r: bool)
    ensures
        r == contains_seq(hay@, needle@),
{
    hay.contains(needle)
}

/// Decides whether an entry with this name and tag string is shown for `term`.
pub fn matches(file_name: &str, tag_string: &str, term: &str) -> (r: bool)
    ensures
        r == matches_spec(file_name@, tag_string@, term@),
{
    if term.unicode_len() == 0 {
        return true;
    }
    str_contains(tag_string, term) || str_contains(file_name, term)
}

} // verus!
