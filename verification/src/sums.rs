//! Sums over sequences of counters.

use vstd::prelude::*;

verus! {

/// The sum of the numbers in `s`.
pub open spec fn total(s: Seq<nat>) -> nat
    decreases s.len(),
{
    if s.len() == 0 {
        0
    } else {
        total(s.drop_last()) + s.last()
    }
}

/// Appending a number adds it to the sum.
pub proof fn lemma_total_push(s: Seq<nat>, x: nat)
    ensures
        total(s.push(x)) == total(s) + x,
{
    assert(s.push(x).drop_last() =~= s);
}

/// Inserting a number anywhere adds it to the sum.
pub proof fn lemma_total_insert(s: Seq<nat>, i: int, x: nat)
    requires
        0 <= i <= s.len(),
    ensures
        total(s.insert(i, x)) == total(s) + x,
    decreases s.len(),
{
    if i == s.len() {
        assert(s.insert(i, x) =~= s.push(x));
        lemma_total_push(s, x);
    } else {
        assert(s.insert(i, x).drop_last() =~= s.drop_last().insert(i, x));
        lemma_total_insert(s.drop_last(), i, x);
    }
}

/// Replacing a number changes the sum by the difference.
pub proof fn lemma_total_update(s: Seq<nat>, i: int, x: nat)
    requires
        0 <= i < s.len(),
    ensures
        total(s.update(i, x)) + s[i] == total(s) + x,
    decreases s.len(),
{
    if i == s.len() - 1 {
        assert(s.update(i, x).drop_last() =~= s.drop_last());
    } else {
        assert(s.update(i, x).drop_last() =~= s.drop_last().update(i, x));
        lemma_total_update(s.drop_last(), i, x);
    }
}

/// No number exceeds the sum.
pub proof fn lemma_total_bounds_each(s: Seq<nat>, i: int)
    requires
        0 <= i < s.len(),
    ensures
        s[i] <= total(s),
    decreases s.len(),
{
    if i < s.len() - 1 {
        lemma_total_bounds_each(s.drop_last(), i);
    }
}

/// A sequence of zeros sums to zero.
pub proof fn lemma_total_zeros(s: Seq<nat>)
    requires
        forall|i: int| 0 <= i < s.len() ==> s[i] == 0,
    ensures
        total(s) == 0,
    decreases s.len(),
{
    if s.len() > 0 {
        lemma_total_zeros(s.drop_last());
    }
}

/// The sum of two numbers, held at the largest value a counter can take.
pub open spec fn capped_sum(a: u32, b: u32) -> u32 {
    if a + b > u32::MAX {
        u32::MAX
    } else {
        (a + b) as u32
    }
}

/// Adds two counters; the result stays at the largest value once reached.
pub fn capped_add(a: u32, b: u32) -> (sum: u32)
    ensures
        sum == capped_sum(a, b),
{
    if a > u32::MAX - b {
        u32::MAX
    } else {
        a + b
    }
}

} // verus!
