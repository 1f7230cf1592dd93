//! Character and string primitives that the lexer and the executor build on.
//!
//! The standard library decides what counts as white space, what the upper-case
//! form of a word is and whether one string occurs inside another. This module
//! gives those operations the contracts that the rest of the crate is proved
//! against; none of them is proved here.

use vstd::prelude::*;

verus! {

/// Whether `c` has the Unicode `White_Space` property, as `char::is_whitespace`
/// reports it. The table behind it belongs to the standard library, so the
/// predicate is left abstract.
pub uninterp spec fn unicode_whitespace(c: char) -> bool;

/// The upper-case form of `text` as `str::to_uppercase` computes it. A single
/// character may map to several, so the result can be longer than `text`.
pub uninterp spec fn unicode_uppercase(text: Seq<char>) -> Seq<char>;

/// `needle` occurs in `haystack` as a contiguous run of characters. The empty
/// needle occurs in every haystack.
pub open spec fn occurs_in(needle: Seq<char>, haystack: Seq<char>) -> bool {
    exists|start: int|
        0 <= start && start + needle.len() <= haystack.len() && #[trigger] haystack.subrange(
            start,
            start + needle.len(),
        ) == needle
}

/// Trusted: `char::is_whitespace` answers by the `White_Space` property and by
/// nothing else, so equal characters get equal answers; and a line feed has
/// that property.
pub assume_specification[ char::is_whitespace ](c: char) -> (white: bool)
    ensures
        white == unicode_whitespace(c),
        c == '\n' ==> white,
;

/// Trusted: `str::to_uppercase` returns a fresh string that depends on the
/// characters of `text` alone (it consults no locale).
pub assume_specification[ str::to_uppercase ](text: &str) -> (upper: String)
    ensures
        upper@ == unicode_uppercase(text@),
;

/// Trusted: `String::push` appends exactly the one character and leaves what
/// was there in place.
pub assume_specification[ String::push ](text: &mut String, c: char)
    ensures
        final(text)@ == old(text)@.push(c),
;

/// Trusted: two string slices compare equal exactly when they hold the same
/// characters in the same order.
pub assume_specification[ <str as PartialEq>::eq ](left: &str, right: &str) -> (equal: bool)
    ensures
        equal == (left@ == right@),
;

/// Trusted: `str::contains` with a string pattern reports whether the pattern
/// occurs as a substring, compared character by character with no case
/// folding.
#[verifier::external_body]
pub(crate) fn contains_text(haystack: &str, needle: &str) -> (found: bool)
    ensures
        found == occurs_in(needle@, haystack@),
{
    haystack.contains(needle)
}

} // verus!
