//! Sums, occurrence counts and maxima of sequences of die values.
//!
//! These spec functions are the vocabulary the scoring contracts are written
//! in; the lemmas bound every sum the engine computes so that all arithmetic
//! stays within `u64`.

use vstd::prelude::*;

verus! {

/// Sum of a sequence of die values, as a mathematical integer.
pub open spec fn seq_sum(s: Seq<u64>) -> int
    decreases s.len(),
{
    if s.len() == 0 {
        0
    } else {
        seq_sum(s.drop_last()) + s.last()
    }
}

/// How many elements of `s` are equal to `v`.
pub open spec fn count_eq(s: Seq<u64>, v: u64) -> int
    decreases s.len(),
{
    if s.len() == 0 {
        0
    } else {
        count_eq(s.drop_last(), v) + if s.last() == v {
            1int
        } else {
            0int
        }
    }
}

/// The largest element of `s`, or 0 if `s` is empty.
pub open spec fn seq_max(s: Seq<u64>) -> u64
    decreases s.len(),
{
    if s.len() == 0 {
        0
    } else if s.last() >= seq_max(s.drop_last()) {
        s.last()
    } else {
        seq_max(s.drop_last())
    }
}

/// Extending a prefix by one element adds that element to its sum.
pub proof fn lemma_seq_sum_take_step(s: Seq<u64>, i: int)
    requires
        0 <= i < s.len(),
    ensures
        seq_sum(s.take(i + 1)) == seq_sum(s.take(i)) + s[i],
{
    assert(s.take(i + 1).drop_last() =~= s.take(i));
}

/// Extending a prefix by one element counts that element.
pub proof fn lemma_count_eq_take_step(s: Seq<u64>, v: u64, i: int)
    requires
        0 <= i < s.len(),
    ensures
        count_eq(s.take(i + 1), v) == count_eq(s.take(i), v) + if s[i] == v {
            1int
        } else {
            0int
        },
{
    assert(s.take(i + 1).drop_last() =~= s.take(i));
}

/// The whole sequence is its own length-long prefix.
pub proof fn lemma_take_all<A>(s: Seq<A>)
    ensures
        s.take(s.len() as int) == s,
{
    assert(s.take(s.len() as int) =~= s);
}

/// A prefix sums to at most the whole sequence.
pub proof fn lemma_seq_sum_take_le(s: Seq<u64>, i: int)
    requires
        0 <= i <= s.len(),
    ensures
        seq_sum(s.take(i)) <= seq_sum(s),
    decreases s.len() - i,
{
    if i < s.len() {
        lemma_seq_sum_take_step(s, i);
        lemma_seq_sum_take_le(s, i + 1);
    } else {
        lemma_take_all(s);
    }
}

/// A sum of die values is never negative.
pub proof fn lemma_seq_sum_nonneg(s: Seq<u64>)
    ensures
        seq_sum(s) >= 0,
    decreases s.len(),
{
    if s.len() > 0 {
        lemma_seq_sum_nonneg(s.drop_last());
    }
}

/// A count of occurrences lies between 0 and the length.
pub proof fn lemma_count_eq_bounds(s: Seq<u64>, v: u64)
    ensures
        0 <= count_eq(s, v) <= s.len(),
    decreases s.len(),
{
    if s.len() > 0 {
        lemma_count_eq_bounds(s.drop_last(), v);
    }
}

/// A value that occurs at all occurs at some index.
pub proof fn lemma_count_eq_witness(s: Seq<u64>, v: u64) -> (i: int)
    requires
        count_eq(s, v) > 0,
    ensures
        0 <= i < s.len() && s[i] == v,
    decreases s.len(),
{
    if s.last() == v {
        s.len() - 1
    } else {
        let i = lemma_count_eq_witness(s.drop_last(), v);
        i
    }
}

/// Every element is bounded by the maximum.
pub proof fn lemma_seq_max_ge(s: Seq<u64>, i: int)
    requires
        0 <= i < s.len(),
    ensures
        s[i] <= seq_max(s),
    decreases s.len(),
{
    if i < s.len() - 1 {
        lemma_seq_max_ge(s.drop_last(), i);
    }
}

/// The maximum of a sequence whose elements all stay under a bound stays
/// under it too.
pub proof fn lemma_seq_max_le(s: Seq<u64>, bound: u64)
    requires
        forall|i: int| 0 <= i < s.len() ==> #[trigger] s[i] <= bound,
    ensures
        seq_max(s) <= bound,
    decreases s.len(),
{
    if s.len() > 0 {
        lemma_seq_max_le(s.drop_last(), bound);
    }
}

/// The dice showing `v` contribute exactly `v` times their count to the sum,
/// and at most the whole sum.
pub proof fn lemma_value_count_le_sum(s: Seq<u64>, v: u64)
    ensures
        v * count_eq(s, v) <= seq_sum(s),
    decreases s.len(),
{
    lemma_seq_sum_nonneg(s);
    if s.len() > 0 {
        lemma_value_count_le_sum(s.drop_last(), v);
        if s.last() == v {
            assert(v * count_eq(s, v) == v * count_eq(s.drop_last(), v) + v) by (nonlinear_arith)
                requires
                    count_eq(s, v) == count_eq(s.drop_last(), v) + 1,
            ;
        } else {
            assert(v * count_eq(s, v) == v * count_eq(s.drop_last(), v));
        }
    } else {
        assert(v * count_eq(s, v) == 0) by (nonlinear_arith)
            requires
                count_eq(s, v) == 0,
        ;
    }
}

/// Two distinct values contribute disjoint dice, so their contributions
/// together stay under the whole sum.
pub proof fn lemma_two_values_le_sum(s: Seq<u64>, a: u64, b: u64)
    requires
        a != b,
    ensures
        a * count_eq(s, a) + b * count_eq(s, b) <= seq_sum(s),
    decreases s.len(),
{
    lemma_seq_sum_nonneg(s);
    if s.len() > 0 {
        lemma_two_values_le_sum(s.drop_last(), a, b);
        if s.last() == a {
            assert(a * count_eq(s, a) == a * count_eq(s.drop_last(), a) + a) by (nonlinear_arith)
                requires
                    count_eq(s, a) == count_eq(s.drop_last(), a) + 1,
            ;
        } else if s.last() == b {
            assert(b * count_eq(s, b) == b * count_eq(s.drop_last(), b) + b) by (nonlinear_arith)
                requires
                    count_eq(s, b) == count_eq(s.drop_last(), b) + 1,
            ;
        }
    } else {
        assert(a * count_eq(s, a) == 0 && b * count_eq(s, b) == 0) by (nonlinear_arith)
            requires
                count_eq(s, a) == 0 && count_eq(s, b) == 0,
        ;
    }
}

/// Distinct values occupy disjoint positions, so their counts together stay
/// under the length.
pub proof fn lemma_two_counts_le_len(s: Seq<u64>, a: u64, b: u64)
    requires
        a != b,
    ensures
        count_eq(s, a) + count_eq(s, b) <= s.len(),
    decreases s.len(),
{
    if s.len() > 0 {
        lemma_two_counts_le_len(s.drop_last(), a, b);
    }
}

/// Multiplying a value by a smaller count keeps it under the value's whole
/// contribution to the sum.
pub proof fn lemma_mul_le_count(v: u64, k: int, s: Seq<u64>)
    requires
        0 <= k <= count_eq(s, v),
    ensures
        v * k <= seq_sum(s),
{
    lemma_value_count_le_sum(s, v);
    assert(v * k <= v * count_eq(s, v)) by (nonlinear_arith)
        requires
            0 <= k <= count_eq(s, v),
            0 <= v,
    ;
}

} // verus!
