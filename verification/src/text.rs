//! Substring search and case folding on strings, stated over `Seq<char>`.

use vstd::prelude::*;

verus! {

/// `needle` occurs in `hay` as a run of consecutive characters.
/// The empty needle occurs in every string.
pub open spec fn occurs_in(needle: Seq<char>, hay: Seq<char>) -> bool {
    exists|at: int| occurs_at(needle, hay, at)
}

/// `needle` stands in `hay` at position `at`.
pub open spec fn occurs_at(needle: Seq<char>, hay: Seq<char>, at: int) -> bool {
    &&& 0 <= at
    &&& at + needle.len() <= hay.len()
    &&& hay.subrange(at, at + needle.len()) == needle
}

/// The upper-case form that `str::to_uppercase` gives a string: Unicode's
/// full upper-case mapping, in which one character may become several. It is
/// a fixed function of the characters; its tables are not restated here.
pub uninterp spec fn uppercase(s: Seq<char>) -> Seq<char>;

/// `str::to_uppercase`: the result is the upper-case form of the argument.
/// Trusted; the mapping itself stays unnamed beyond `uppercase`.
pub assume_specification[ str::to_uppercase ](s: &str) -> (folded: String)
    ensures
        folded@ == uppercase(s@),
;

/// `str::contains` with a string pattern: whether `needle` occurs in `hay`.
/// Trusted: std documents that it is true exactly when the pattern matches
/// a sub-slice of the string, and a match of one valid UTF-8 string inside
/// another always falls on character boundaries.
#[verifier::external_body]
pub(crate) fn holds(hay: &str, needle: &str) -> (found: bool)
    ensures
        found == occurs_in(needle@, hay@),
{
    hay.contains(needle)
}

} // verus!
