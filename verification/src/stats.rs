//! Medians and percentiles of counts, in exact arithmetic.

use vstd::prelude::*;
use vstd::relations::{sorted_by, total_ordering};
use vstd::seq_lib::lemma_sorted_unique;

verus! {

/// The order of counts.
pub open spec fn leq() -> spec_fn(u32, u32) -> bool {
    |a: u32, b: u32| a <= b
}

/// The values stand in ascending order; equal values may repeat.
pub open spec fn ascending_values(s: Seq<u32>) -> bool {
    forall|i: int, j: int| 0 <= i < j < s.len() ==> s[i] <= s[j]
}

/// The values in ascending order.
pub open spec fn sorted(values: Seq<u32>) -> Seq<u32> {
    values.sort_by(leq())
}

/// What sorting gives: the same values, each as often as before, ascending.
pub proof fn lemma_sorted(values: Seq<u32>)
    ensures
        ascending_values(sorted(values)),
        sorted(values).to_multiset() == values.to_multiset(),
        sorted(values).len() == values.len(),
        forall|i: int| 0 <= i < values.len() ==> sorted(values).contains(#[trigger] values[i]),
        forall|i: int| 0 <= i < values.len() ==> values.contains(#[trigger] sorted(values)[i]),
{
    broadcast use vstd::seq_lib::group_to_multiset_ensures;

    assert(total_ordering(leq()));
    values.lemma_sort_by_ensures(leq());
    let s = sorted(values);
    assert(s.to_multiset() =~= values.to_multiset());
    assert(s.len() == values.len()) by {
        assert(s.to_multiset().len() == s.len());
        assert(values.to_multiset().len() == values.len());
    }
    assert forall|i: int| 0 <= i < values.len() implies s.contains(#[trigger] values[i]) by {
        assert(values.to_multiset().count(values[i]) > 0);
        assert(s.to_multiset().count(values[i]) > 0);
    }
    assert forall|i: int| 0 <= i < values.len() implies values.contains(#[trigger] s[i]) by {
        assert(s.to_multiset().count(s[i]) > 0);
        assert(values.to_multiset().count(s[i]) > 0);
    }
    assert forall|i: int, j: int| 0 <= i < j < s.len() implies s[i] <= s[j] by {
        assert(leq()(s[i], s[j]));
    }
}

/// Ascending values with the same members as `values` are `values` sorted.
pub proof fn lemma_sorted_is(s: Seq<u32>, values: Seq<u32>)
    requires
        ascending_values(s),
        s.to_multiset() == values.to_multiset(),
    ensures
        s == sorted(values),
{
    assert(total_ordering(leq()));
    values.lemma_sort_by_ensures(leq());
    assert(sorted_by(s, leq()));
    lemma_sorted_unique(s, sorted(values), leq());
}

/// Sorting what is sorted changes nothing.
pub proof fn lemma_sorted_twice(values: Seq<u32>)
    ensures
        sorted(sorted(values)) == sorted(values),
{
    lemma_sorted(values);
    lemma_sorted_is(sorted(values), sorted(values));
}

/// Calls `sort_unstable` of the standard library, which sorts a slice in
/// ascending order and keeps every value as often as it was there.
#[verifier::external_body]
fn sort_values(values: &mut Vec<u32>)
    ensures
        ascending_values(final(values)@),
        final(values)@.to_multiset() == old(values)@.to_multiset(),
{
    values.sort_unstable();
}

/// Sorts counts in ascending order.
pub fn sort(values: Vec<u32>) -> (out: Vec<u32>)
    ensures
        out@ == sorted(values@),
        out@.len() == values@.len(),
        ascending_values(out@),
{
    let mut out = values;
    sort_values(&mut out);
    proof {
        lemma_sorted_is(out@, values@);
        lemma_sorted(values@);
    }
    out
}

/// The two middle values of a list of counts: the same value twice when
/// the list has an odd length. The median is their mean.
#[derive(Clone, Copy, Debug, PartialEq, Eq, Structural)]
pub struct Median {
    pub lower: u32,
    pub upper: u32,
}

/// The middle values of `values` once they are sorted; zeros for no values.
pub open spec fn median_of(values: Seq<u32>) -> Median {
    if values.len() == 0 {
        Median { lower: 0, upper: 0 }
    } else {
        let s = sorted(values);
        Median { lower: s[(values.len() - 1) / 2], upper: s[values.len() as int / 2] }
    }
}

impl Median {
    /// Twice the median: the sum of the two middle values.
    pub open spec fn doubled(self) -> int {
        self.lower + self.upper
    }

    /// Twice the median.
    pub fn twice(self) -> (t: u64)
        ensures
            t == self.doubled(),
    {
        self.lower as u64 + self.upper as u64
    }
}

/// Computes the median of a list of counts, which need not be sorted.
pub fn median(values: &Vec<u32>) -> (m: Median)
    ensures
        m == median_of(values@),
{
    if values.len() == 0 {
        return Median { lower: 0, upper: 0 };
    }
    let buf = sort(values.clone());
    let mid = buf.len() / 2;
    let upper = buf[mid];
    let lower = buf[(buf.len() - 1) / 2];
    Median { lower, upper }
}

/// The scale of a percentile: a percentile is given in thousandths of a
/// percent, so 100 percent is this number.
pub const FULL: i64 = 100_000;

/// A percentile between 0 and 100 percent.
pub open spec fn valid_percentile(pct: i64) -> bool {
    0 <= pct <= FULL
}

/// The percentile `pct` of ascending `values`: the value at rank
/// `pct / 100% * (n - 1)`, interpolated linearly between the two values
/// that bracket the rank and rounded to the nearest count, halves up. The
/// last value for 100 percent and for a single value.
pub open spec fn percentile_at(values: Seq<u32>, pct: i64) -> u32 {
    let n = values.len() as int;
    if pct == FULL || n == 1 {
        values[n - 1]
    } else {
        let rank = pct * (n - 1);
        let below = rank / (FULL as int);
        let part = rank % (FULL as int);
        let lo = values[below] as int;
        let hi = values[below + 1] as int;
        ((2 * (lo * FULL + (hi - lo) * part) + FULL) / (2 * FULL)) as u32
    }
}

/// The percentile lies between the two values that bracket its rank.
pub proof fn lemma_percentile_between(values: Seq<u32>, pct: i64)
    requires
        ascending_values(values),
        values.len() >= 2,
        0 <= pct < FULL,
    ensures
        0 <= pct * (values.len() - 1) / (FULL as int) <= values.len() - 2,
        values[pct * (values.len() - 1) / (FULL as int)] <= percentile_at(values, pct) <= values[pct * (
            values.len() - 1) / (FULL as int) + 1],
{
    let n = values.len() as int;
    let rank = pct * (n - 1);
    let d = FULL as int;
    assert(0 <= rank < d * (n - 1)) by (nonlinear_arith)
        requires
            0 <= pct < d,
            n >= 2,
            rank == pct * (n - 1),
    ;
    let below = rank / d;
    let part = rank % d;
    assert(0 <= below <= n - 2) by (nonlinear_arith)
        requires
            0 <= rank < d * (n - 1),
            d == 100_000,
            below == rank / d,
    ;
    let lo = values[below] as int;
    let hi = values[below + 1] as int;
    let gap = hi - lo;
    assert(0 <= gap * part <= gap * (d - 1)) by (nonlinear_arith)
        requires
            0 <= gap,
            0 <= part < d,
    ;
    let x = 2 * (lo * d + gap * part) + d;
    assert(lo * (2 * d) <= x < (hi + 1) * (2 * d)) by (nonlinear_arith)
        requires
            x == 2 * (lo * d + gap * part) + d,
            0 <= gap * part <= gap * (d - 1),
            gap == hi - lo,
            gap >= 0,
            d == 100_000,
    ;
    assert(lo <= x / (2 * d) <= hi) by (nonlinear_arith)
        requires
            lo * (2 * d) <= x < (hi + 1) * (2 * d),
            d == 100_000,
    ;
}

/// Returns the percentile `pct`, in thousandths of a percent, of a list of
/// counts in ascending order; none for an empty list.
pub fn percentile_of_sorted(values: &Vec<u32>, pct: i64) -> (p: Option<u32>)
    requires
        ascending_values(values@),
        valid_percentile(pct),
    ensures
        values@.len() == 0 ==> p is None,
        values@.len() > 0 ==> p == Some(percentile_at(values@, pct)),
{
    let n = values.len();
    if n == 0 {
        return None;
    }
    if pct == FULL || n == 1 {
        return Some(values[n - 1]);
    }
    proof {
        lemma_percentile_between(values@, pct);
    }
    let scale: u128 = FULL as u128;
    let steps: u128 = (n - 1) as u128;
    assert(0 <= pct * (n - 1) < 0x1_0000_0000_0000_0000_0000_0000int) by (nonlinear_arith)
        requires
            0 <= pct < 100_000,
            0 <= n - 1 < 0x1_0000_0000_0000_0000int,
    ;
    let rank: u128 = (pct as u128) * steps;
    assert(rank == pct * (n - 1));
    let below = (rank / scale) as usize;
    let part = rank % scale;
    let lo = values[below] as u128;
    let hi = values[below + 1] as u128;
    assert(lo <= hi);
    let gap = hi - lo;
    assert(0 <= gap * part <= 0x1_0000_0000 * 100_000) by (nonlinear_arith)
        requires
            0 <= gap < 0x1_0000_0000,
            0 <= part < 100_000,
    ;
    assert(0 <= lo * scale <= 0x1_0000_0000 * 100_000) by (nonlinear_arith)
        requires
            0 <= lo < 0x1_0000_0000,
            scale == 100_000,
    ;
    let x: u128 = 2 * (lo * scale + gap * part) + scale;
    let rounded = x / (2 * scale);
    proof {
        let d = FULL as int;
        let r = pct * (n - 1);
        assert(rank as int == r);
        assert(below as int == r / d);
        assert(part as int == r % d);
        let l = values@[r / d] as int;
        let h = values@[r / d + 1] as int;
        assert(lo as int == l && hi as int == h);
        let big = 2 * (l * d + (h - l) * (r % d)) + d;
        assert(x as int == big);
        assert(rounded as int == big / (2 * d));
        assert(percentile_at(values@, pct) == (big / (2 * d)) as u32);
        assert(l <= percentile_at(values@, pct) <= h);
    }
    Some(rounded as u32)
}

/// The smallest of the values; 0 for none.
pub open spec fn min_of(values: Seq<u32>) -> u32
    decreases values.len(),
{
    if values.len() == 0 {
        0
    } else if values.len() == 1 {
        values[0]
    } else {
        let rest = min_of(values.drop_last());
        if values.last() < rest {
            values.last()
        } else {
            rest
        }
    }
}

/// The largest of the values; 0 for none.
pub open spec fn max_of(values: Seq<u32>) -> u32
    decreases values.len(),
{
    if values.len() == 0 {
        0
    } else if values.len() == 1 {
        values[0]
    } else {
        let rest = max_of(values.drop_last());
        if values.last() > rest {
            values.last()
        } else {
            rest
        }
    }
}

/// The smallest and the largest value bound all values and are among them.
pub proof fn lemma_min_max(values: Seq<u32>)
    requires
        values.len() > 0,
    ensures
        forall|i: int| 0 <= i < values.len() ==> min_of(values) <= #[trigger] values[i] <= max_of(values),
        values.contains(min_of(values)),
        values.contains(max_of(values)),
    decreases values.len(),
{
    if values.len() == 1 {
        assert(values[0] == min_of(values));
    } else {
        let front = values.drop_last();
        lemma_min_max(front);
        assert forall|i: int| 0 <= i < values.len() implies min_of(values) <= #[trigger] values[i]
            <= max_of(values) by {
            if i < front.len() {
                assert(front[i] == values[i]);
            }
        }
        let a = choose|i: int| 0 <= i < front.len() && front[i] == min_of(front);
        assert(values[a] == min_of(front));
        let b = choose|i: int| 0 <= i < front.len() && front[i] == max_of(front);
        assert(values[b] == max_of(front));
        assert(values[values.len() - 1] == values.last());
    }
}

/// The ends of the sorted values are the smallest and the largest value.
pub proof fn lemma_sorted_ends(values: Seq<u32>)
    requires
        values.len() > 0,
    ensures
        sorted(values)[0] == min_of(values),
        sorted(values)[values.len() - 1] == max_of(values),
{
    lemma_sorted(values);
    lemma_min_max(values);
    let s = sorted(values);
    let n = values.len() as int;
    assert(values.contains(s[0]));
    assert(values.contains(s[n - 1]));
    assert(s.contains(min_of(values))) by {
        let i = choose|i: int| 0 <= i < values.len() && values[i] == min_of(values);
        assert(s.contains(values[i]));
    }
    assert(s.contains(max_of(values))) by {
        let i = choose|i: int| 0 <= i < values.len() && values[i] == max_of(values);
        assert(s.contains(values[i]));
    }
    let a = choose|i: int| 0 <= i < s.len() && s[i] == min_of(values);
    let b = choose|i: int| 0 <= i < s.len() && s[i] == max_of(values);
    let i0 = choose|i: int| 0 <= i < values.len() && values[i] == s[0];
    let i1 = choose|i: int| 0 <= i < values.len() && values[i] == s[n - 1];
    assert(min_of(values) <= values[i0]);
    assert(values[i1] <= max_of(values));
    assert(s[0] <= s[a] || a == 0);
    assert(s[b] <= s[n - 1] || b == n - 1);
}

/// The median does not depend on the order of the values and lies between
/// the smallest and the largest of them.
pub proof fn lemma_median_properties(values: Seq<u32>)
    requires
        values.len() > 0,
    ensures
        median_of(sorted(values)) == median_of(values),
        min_of(values) <= median_of(values).lower <= median_of(values).upper <= max_of(values),
        2 * min_of(values) <= median_of(values).doubled() <= 2 * max_of(values),
{
    lemma_sorted(values);
    lemma_sorted_twice(values);
    lemma_sorted_ends(values);
    let s = sorted(values);
    let n = values.len() as int;
    assert(s[0] <= s[(n - 1) / 2] || (n - 1) / 2 == 0);
    assert(s[(n - 1) / 2] <= s[n / 2] || (n - 1) / 2 == n / 2);
    assert(s[n / 2] <= s[n - 1] || n / 2 == n - 1);
}

/// Percentiles of the sorted values do not change when the values are
/// sorted again; the 50th percentile lies between the smallest value and the
/// 100th percentile, which is the largest value.
pub proof fn lemma_percentile_properties(values: Seq<u32>)
    requires
        values.len() > 0,
    ensures
        forall|pct: i64| percentile_at(sorted(sorted(values)), pct) == percentile_at(sorted(values), pct),
        min_of(values) <= percentile_at(sorted(values), 50_000),
        percentile_at(sorted(values), 50_000) <= percentile_at(sorted(values), FULL),
        percentile_at(sorted(values), FULL) == max_of(values),
{
    lemma_sorted(values);
    lemma_sorted_twice(values);
    lemma_sorted_ends(values);
    let s = sorted(values);
    let n = values.len() as int;
    if n >= 2 {
        lemma_percentile_between(s, 50_000);
        let below = 50_000 * (n - 1) / (FULL as int);
        assert(s[0] <= s[below] || below == 0);
        assert(s[below + 1] <= s[n - 1] || below + 1 == n - 1);
    }
}

} // verus!
