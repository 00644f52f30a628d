//! Rolling dice: fresh rolls and rolls that keep part of a previous outcome.
//!
//! A die is described by its face count; a roll of the configured dice is
//! returned sorted descending.  Randomness enters the engine only here, and
//! only through [`draw_die`]; everything stated of a roll holds whatever
//! values were drawn.

use vstd::prelude::*;

use crate::sums::seq_max;

verus! {

/// The sequence is ordered largest first.
pub open spec fn sorted_desc(s: Seq<u64>) -> bool {
    forall|i: int, j: int| 0 <= i <= j < s.len() ==> s[i] >= s[j]
}

/// `w` is a vector of per-die draws: one value in `[1, dice[i]]` for each die.
pub open spec fn fresh_draws(dice: Seq<u64>, w: Seq<u64>) -> bool {
    &&& w.len() == dice.len()
    &&& forall|i: int| #![trigger w[i]] 0 <= i < w.len() ==> 1 <= w[i] <= dice[i]
}

/// `w` is a vector of per-die draws that retains `prev[i]` wherever `keep[i]`
/// is set and draws a fresh value in `[1, dice[i]]` elsewhere.
pub open spec fn kept_draws(dice: Seq<u64>, prev: Seq<u64>, keep: Seq<bool>, w: Seq<u64>) -> bool {
    &&& w.len() == dice.len()
    &&& forall|i: int|
        #![trigger w[i]]
        0 <= i < w.len() ==> if keep[i] {
            w[i] == prev[i]
        } else {
            1 <= w[i] <= dice[i]
        }
}

/// `vals` is a fresh roll of `dice`: some vector of per-die draws, sorted
/// descending.
pub open spec fn fresh_roll_ok(dice: Seq<u64>, vals: Seq<u64>) -> bool {
    &&& sorted_desc(vals)
    &&& exists|w: Seq<u64>| #[trigger] fresh_draws(dice, w) && vals.to_multiset() == w.to_multiset()
}

/// `vals` is a reroll of `dice` that kept the marked dice of `prev`, sorted
/// descending.
pub open spec fn kept_roll_ok(
    dice: Seq<u64>,
    prev: Seq<u64>,
    keep: Seq<bool>,
    vals: Seq<u64>,
) -> bool {
    &&& sorted_desc(vals)
    &&& exists|w: Seq<u64>|
        #[trigger] kept_draws(dice, prev, keep, w) && vals.to_multiset() == w.to_multiset()
}

/// Relies on rand 0.8's `Rng::gen_range` over `1..=sides` (via
/// `rand::thread_rng`): a value drawn from that inclusive range, which is
/// nonempty because `sides >= 1`.
#[verifier::external_body]
fn draw_die(sides: u64) -> (r: u64)
    requires
        1 <= sides,
    ensures
        1 <= r <= sides,
{
    rand::Rng::gen_range(&mut rand::thread_rng(), 1..=sides)
}

/// Sorts the values largest first, keeping exactly the same values.
fn sort_desc(v: &mut Vec<u64>)
    ensures
        sorted_desc(final(v)@),
        final(v)@.to_multiset() == old(v)@.to_multiset(),
        final(v)@.len() == old(v)@.len(),
{
    broadcast use vstd::seq_lib::group_to_multiset_ensures;

    let ghost orig = v@;
    let mut i: usize = 1;
    while i < v.len()
        invariant
            1 <= i,
            v@.len() == 0 || i <= v@.len(),
            v@.len() == orig.len(),
            v@.to_multiset() == orig.to_multiset(),
            i > v@.len() || sorted_desc(v@.take(i as int)),
        decreases v@.len() - i,
    {
        let x = v[i];
        let mut j: usize = 0;
        while j < i && v[j] >= x
            invariant
                0 <= j <= i,
                i < v@.len(),
                x == v@[i as int],
                forall|k: int| 0 <= k < j ==> v@[k] >= x,
            decreases i - j,
        {
            j += 1;
        }
        let ghost pre = v@;
        let y = v.remove(i);
        v.insert(j, y);
        proof {
            assert(v@ =~= pre.remove(i as int).insert(j as int, x));
            vstd::seq_lib::to_multiset_remove(pre, i as int);
            vstd::seq_lib::to_multiset_insert(pre.remove(i as int), j as int, x);
            assert(v@.to_multiset() == pre.to_multiset().remove(x).insert(x));
            assert(pre.contains(x)) by {
                assert(pre[i as int] == x);
            }
            vstd::seq_lib::to_multiset_contains(pre, x);
            assert(pre.to_multiset().count(x) > 0);
            assert(v@.to_multiset() =~= pre.to_multiset());
            assert(forall|k: int| 0 <= k < j ==> v@[k] == pre[k]);
            assert(v@[j as int] == x);
            assert(forall|k: int| j < k <= i ==> v@[k] == pre[k - 1]);
            let nv = v@;
            let sp = pre.take(i as int);
            assert(forall|k: int| 0 <= k < i ==> sp[k] == pre[k]);
            assert forall|k1: int, k2: int| 0 <= k1 <= k2 <= i as int implies nv[k1] >= nv[k2] by {
                if k2 < j {
                    assert(sp[k1] >= sp[k2]);
                } else if k2 == j {
                    if k1 < j {
                        assert(nv[k1] == pre[k1] && pre[k1] >= x);
                    }
                } else {
                    // k2 > j, so the inner loop stopped at j < i with pre[j] < x
                    assert(pre[j as int] < x);
                    assert(sp[j as int] >= sp[k2 - 1]);
                    if k1 < j {
                        assert(nv[k1] == pre[k1] && pre[k1] >= x);
                    } else if k1 == j {
                        assert(nv[k1] == x);
                    } else {
                        assert(sp[k1 - 1] >= sp[k2 - 1]);
                    }
                }
            }
            assert forall|k1: int, k2: int|
                #![trigger nv.take(i + 1)[k1], nv.take(i + 1)[k2]]
                0 <= k1 <= k2 < i + 1 implies nv.take(i + 1)[k1] >= nv.take(i + 1)[k2] by {
                assert(nv.take(i + 1)[k1] == nv[k1]);
                assert(nv.take(i + 1)[k2] == nv[k2]);
            }
            assert(sorted_desc(v@.take(i + 1)));
        }
        i += 1;
    }
    proof {
        assert(v@.take(v@.len() as int) =~= v@);
        if v@.len() == 0 {
            assert(sorted_desc(v@));
        }
    }
}

/// Rolls every configured die afresh.  The result is one value per die, each
/// drawn from `[1, dice[i]]`, returned sorted descending.
pub fn roll_dice(dice: &[u64]) -> (r: Vec<u64>)
    requires
        forall|i: int| 0 <= i < dice@.len() ==> 1 <= dice@[i],
    ensures
        fresh_roll_ok(dice@, r@),
        r@.len() == dice@.len(),
{
    broadcast use vstd::seq_lib::group_to_multiset_ensures;

    let n = dice.len();
    let mut result: Vec<u64> = Vec::new();
    let mut i: usize = 0;
    while i < n
        invariant
            0 <= i <= n,
            n == dice@.len(),
            result@.len() == i,
            forall|k: int| #![trigger result@[k]] 0 <= k < i ==> 1 <= result@[k] <= dice@[k],
            forall|k: int| 0 <= k < n ==> 1 <= dice@[k],
        decreases n - i,
    {
        let v = draw_die(dice[i]);
        result.push(v);
        i += 1;
    }
    let ghost w = result@;
    sort_desc(&mut result);
    proof {
        assert(fresh_draws(dice@, w));
    }
    result
}

/// Rolls the configured dice, retaining `old_roll[i]` wherever `keep[i]` is
/// set and drawing a fresh value elsewhere.  The result is returned sorted
/// descending.
pub fn roll_dice_keeping(dice: &[u64], old_roll: &[u64], keep: &[bool]) -> (r: Vec<u64>)
    requires
        old_roll@.len() == dice@.len(),
        keep@.len() == dice@.len(),
        forall|i: int| 0 <= i < dice@.len() ==> 1 <= dice@[i],
    ensures
        kept_roll_ok(dice@, old_roll@, keep@, r@),
        r@.len() == dice@.len(),
{
    broadcast use vstd::seq_lib::group_to_multiset_ensures;

    let n = dice.len();
    let mut result: Vec<u64> = Vec::new();
    let mut i: usize = 0;
    while i < n
        invariant
            0 <= i <= n,
            n == dice@.len(),
            old_roll@.len() == n,
            keep@.len() == n,
            result@.len() == i,
            forall|k: int|
                #![trigger result@[k]]
                0 <= k < i ==> if keep@[k] {
                    result@[k] == old_roll@[k]
                } else {
                    1 <= result@[k] <= dice@[k]
                },
            forall|k: int| 0 <= k < n ==> 1 <= dice@[k],
        decreases n - i,
    {
        let v = if keep[i] {
            old_roll[i]
        } else {
            draw_die(dice[i])
        };
        result.push(v);
        i += 1;
    }
    let ghost w = result@;
    sort_desc(&mut result);
    proof {
        assert(kept_draws(dice@, old_roll@, keep@, w));
    }
    result
}

/// Values equal as multisets are bounded alike: if every draw lies in
/// `[1, m]`, so does every value of the sorted roll.
pub proof fn lemma_multiset_value_bounds(vals: Seq<u64>, w: Seq<u64>, m: u64)
    requires
        vals.to_multiset() == w.to_multiset(),
        forall|i: int| #![trigger w[i]] 0 <= i < w.len() ==> 1 <= w[i] <= m,
    ensures
        vals.len() == w.len(),
        forall|k: int| #![trigger vals[k]] 0 <= k < vals.len() ==> 1 <= vals[k] <= m,
{
    broadcast use vstd::seq_lib::group_to_multiset_ensures;

    vstd::seq_lib::to_multiset_len(vals);
    vstd::seq_lib::to_multiset_len(w);
    assert(vals.len() == w.len());
    assert forall|k: int| #![trigger vals[k]] 0 <= k < vals.len() implies 1 <= vals[k] <= m by {
        vstd::seq_lib::to_multiset_contains(vals, vals[k]);
        vstd::seq_lib::to_multiset_contains(w, vals[k]);
        assert(vals.contains(vals[k]));
        assert(vals.to_multiset().count(vals[k]) > 0);
        assert(w.to_multiset().count(vals[k]) > 0);
        assert(w.contains(vals[k]));
        let i = choose|i: int| 0 <= i < w.len() && w[i] == vals[k];
        assert(1 <= w[i] <= m);
    }
}

/// Every value a roll of these dice can show stays under the largest face
/// count.
pub proof fn lemma_dice_bounded_by_max(dice: Seq<u64>)
    ensures
        forall|i: int| 0 <= i < dice.len() ==> dice[i] <= seq_max(dice),
{
    assert forall|i: int| 0 <= i < dice.len() implies dice[i] <= seq_max(dice) by {
        crate::sums::lemma_seq_max_ge(dice, i);
    }
}

} // verus!
