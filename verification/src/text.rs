//! The character and string operations of the standard library that the
//! search is built on, with what the library relies on from each.

use vstd::prelude::*;

verus! {

/// The lowercase form of a string: what `str::to_lowercase` returns for it.
pub uninterp spec fn str_lowercase(s: Seq<char>) -> Seq<char>;

/// Whether `needle` stands in `hay` at position `at`.
pub open spec fn occurs_at(needle: Seq<char>, hay: Seq<char>, at: int) -> bool {
    &&& 0 <= at
    &&& at + needle.len() <= hay.len()
    &&& hay.subrange(at, at + needle.len()) == needle
}

/// Whether `needle` is a contiguous part of `hay`. The empty string is a
/// part of every string.
pub open spec fn is_substring(needle: Seq<char>, hay: Seq<char>) -> bool {
    exists|at: int| occurs_at(needle, hay, at)
}

/// `str::to_lowercase`. Trusted: the result is the lowercase form of the
/// argument, a function of its characters alone that is given no further
/// meaning here.
pub assume_specification[ str::to_lowercase ](s: &str) -> (lower: String)
    ensures
        lower@ == str_lowercase(s@),
;

/// `String::push`. Trusted: the character is appended to the text.
pub assume_specification[ String::push ](text: &mut String, c: char)
    ensures
        final(text)@ == old(text)@.push(c),
;

/// Calls `str::contains` with a string pattern. Trusted: the result tells
/// whether the pattern occurs as a contiguous part of the string.
#[verifier::external_body]
pub(crate) fn str_contains(hay: &str, needle: &str) -> (found: bool)
    ensures
        found == is_substring(needle@, hay@),
{
    hay.contains(needle)
}

} // verus!
