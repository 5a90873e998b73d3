//! What this crate takes on trust.
//!
//! Verus does not read the code that the items of this module stand for: it
//! takes their contracts as given. Everything else in the crate is proved,
//! and rests on these.

use crate::lengths::{dedup_adjacent, descending, is_descending};
use itertools::Itertools;
use vstd::prelude::*;

verus! {

/// The answer of `char::is_whitespace` for `c`. Nothing is claimed of which
/// characters are white space, only that the answer depends on the
/// character alone.
pub uninterp spec fn is_white_space(c: char) -> bool;

/// `char::is_whitespace` returns the answer that [`is_white_space`] names.
pub assume_specification[ char::is_whitespace ](c: char) -> (b: bool)
    ensures
        b == is_white_space(c),
;

/// `String::push` appends the character `c` to the end of the string and
/// changes nothing else of it.
pub assume_specification[ String::push ](s: &mut String, c: char)
    ensures
        final(s)@ == old(s)@.push(c),
;

/// Calls `Itertools::collect_vec` on the characters of `input`. It collects
/// what the iterator yields, in order, so the vector holds the text
/// character by character.
#[verifier::external_body]
pub(crate) fn collect_chars(input: &str) -> (chars: Vec<char>)
    ensures
        chars@ == input@,
{
    input.chars().collect_vec()
}

/// Calls `Itertools::dedup` on the elements of `lens`. Of each run of equal
/// neighbours it keeps one; equal elements that are apart all stay.
#[verifier::external_body]
pub(crate) fn dedup(lens: Vec<usize>) -> (kept: Vec<usize>)
    ensures
        kept@ == dedup_adjacent(lens@),
{
    lens.into_iter().dedup().collect()
}

/// Calls `Itertools::sorted_unstable_by` on the elements of `lens`, with
/// [`descending`] as the order. It returns the same elements, each as often
/// as it came, sorted by that order: greatest first.
#[verifier::external_body]
pub(crate) fn sorted_descending(lens: Vec<usize>) -> (sorted: Vec<usize>)
    ensures
        sorted@.to_multiset() == lens@.to_multiset(),
        is_descending(sorted@),
{
    lens.into_iter().sorted_unstable_by(|a, b| descending(a, b)).collect()
}

} // verus!
