//! Sequences of lengths: runs of equal neighbours, and descending order.

use std::cmp::Ordering;
use vstd::prelude::*;

verus! {

/// `s` with every run of equal neighbours shortened to its first element.
pub open spec fn dedup_adjacent(s: Seq<usize>) -> Seq<usize>
    decreases s.len(),
{
    if s.len() <= 1 {
        s
    } else if s[0] == s[1] {
        dedup_adjacent(s.drop_first())
    } else {
        seq![s[0]] + dedup_adjacent(s.drop_first())
    }
}

/// Whether `s` runs from its greatest element down to its least.
pub open spec fn is_descending(s: Seq<usize>) -> bool {
    forall|i: int, j: int| 0 <= i <= j < s.len() ==> s[i] >= s[j]
}

/// The order that puts greater lengths first.
pub fn descending(a: &usize, b: &usize) -> (o: Ordering)
    ensures
        o is Less <==> *a > *b,
        o is Equal <==> *a == *b,
        o is Greater <==> *a < *b,
{
    if *a > *b {
        Ordering::Less
    } else if *a < *b {
        Ordering::Greater
    } else {
        Ordering::Equal
    }
}

/// A sequence holds a value where its first element is the value or the
/// rest holds it.
proof fn lemma_contains_first_or_rest(s: Seq<usize>, x: usize)
    requires
        s.len() > 0,
    ensures
        s.contains(x) <==> s[0] == x || s.drop_first().contains(x),
{
    let rest = s.drop_first();
    if s.contains(x) && s[0] != x {
        let i = choose|i: int| 0 <= i < s.len() && s[i] == x;
        assert(rest[i - 1] == x);
    }
    if rest.contains(x) {
        let i = choose|i: int| 0 <= i < rest.len() && rest[i] == x;
        assert(s[i + 1] == x);
    }
}

/// Shortening runs loses no value and adds none.
pub proof fn lemma_dedup_adjacent_same_values(s: Seq<usize>, x: usize)
    ensures
        dedup_adjacent(s).contains(x) <==> s.contains(x),
    decreases s.len(),
{
    if s.len() > 1 {
        let rest = s.drop_first();
        lemma_dedup_adjacent_same_values(rest, x);
        lemma_contains_first_or_rest(s, x);
        if s[0] == s[1] {
            assert(rest[0] == s[0]);
        } else {
            let kept = seq![s[0]] + dedup_adjacent(rest);
            assert(kept.drop_first() =~= dedup_adjacent(rest));
            lemma_contains_first_or_rest(kept, x);
        }
    }
}

} // verus!
