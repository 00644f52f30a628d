//! The scoring engine: category definitions, their names, and the pure
//! `score` function mapping a completed roll to points.
//!
//! Where several values qualify for a set-based category, the canonical rule
//! of this engine is to pick the largest such value, independent of the order
//! of the roll.

use vstd::prelude::*;
use vstd::string::StringExecFns;

use crate::decimal::{dec_rep, decimal_string};
use crate::errors::InvalidAction;
use crate::sums::{
    count_eq, lemma_count_eq_bounds, lemma_count_eq_take_step, lemma_count_eq_witness,
    lemma_mul_le_count, lemma_seq_max_le, lemma_seq_sum_take_le, lemma_seq_sum_take_step,
    lemma_take_all, lemma_two_counts_le_len, seq_max, seq_sum,
};

verus! {

/// A scoring category: one row of the score sheet, with its parameters.
#[derive(Clone, Copy, Debug, PartialEq)]
pub enum Scoring {
    /// Sum of all dice showing `num`.
    Numbers { num: u64 },
    /// The auto-scored bonus row: never selected directly, filled by the
    /// score-sheet updater once the rows above it are decided.
    Bonus { min_points: u64, value: u64 },
    /// `num` dice sharing a value score value times `num`; the largest
    /// qualifying value counts.
    SetOf { num: u64 },
    /// A run of at least `min_length` consecutive values scores `value`.
    Straight { min_length: u64, value: u64 },
    /// Two disjoint pairs score the sum of both pairs.
    TwoPairs {},
    /// Three of a kind plus a pair scores `value`.
    FullHouse { value: u64 },
    /// All dice alike scores `value`.
    Yahtzee { value: u64 },
    /// Sum of all dice.
    Chance,
}

/// Some value up to `cap` occurs at least `num` times in the roll.
pub open spec fn has_qual_upto(roll: Seq<u64>, num: u64, cap: u64) -> bool {
    exists|v: u64| v <= cap && #[trigger] count_eq(roll, v) >= num
}

/// The largest value up to `cap` occurring at least `num` times in the roll
/// (meaningful only when `has_qual_upto` holds; see `lemma_max_qual`).
pub open spec fn max_qual_upto(roll: Seq<u64>, num: u64, cap: u64) -> u64 {
    choose|v: u64|
        v <= cap && #[trigger] count_eq(roll, v) >= num && (forall|w: u64|
            v < w <= cap ==> #[trigger] count_eq(roll, w) < num)
}

/// When some value up to `cap` qualifies, `max_qual_upto` is the largest one.
pub proof fn lemma_max_qual(roll: Seq<u64>, num: u64, cap: u64)
    requires
        has_qual_upto(roll, num, cap),
    ensures
        ({
            let m = max_qual_upto(roll, num, cap);
            &&& m <= cap
            &&& count_eq(roll, m) >= num
            &&& forall|w: u64| m < w <= cap ==> #[trigger] count_eq(roll, w) < num
        }),
    decreases cap,
{
    if count_eq(roll, cap) >= num {
        assert(cap <= cap && count_eq(roll, cap) >= num && (forall|w: u64|
            cap < w <= cap ==> #[trigger] count_eq(roll, w) < num));
    } else {
        let v0 = choose|v: u64| v <= cap && #[trigger] count_eq(roll, v) >= num;
        assert(v0 < cap);
        assert(v0 <= (cap - 1) as u64 && count_eq(roll, v0) >= num);
        lemma_max_qual(roll, num, (cap - 1) as u64);
        let m = max_qual_upto(roll, num, (cap - 1) as u64);
        assert(m <= cap && count_eq(roll, m) >= num && (forall|w: u64|
            m < w <= cap ==> #[trigger] count_eq(roll, w) < num));
    }
}

/// A value that qualifies and dominates all other qualifying values up to
/// `cap` is exactly `max_qual_upto`.
pub proof fn lemma_max_qual_is(roll: Seq<u64>, num: u64, cap: u64, v: u64)
    requires
        v <= cap,
        count_eq(roll, v) >= num,
        forall|w: u64| v < w <= cap ==> #[trigger] count_eq(roll, w) < num,
    ensures
        has_qual_upto(roll, num, cap),
        max_qual_upto(roll, num, cap) == v,
{
    assert(has_qual_upto(roll, num, cap));
    lemma_max_qual(roll, num, cap);
    let m = max_qual_upto(roll, num, cap);
    assert(!(m < v) && !(v < m));
}

/// Score of `SetOf { num }`: the largest value occurring at least `num`
/// times, times `num`; 0 when no value qualifies.
pub open spec fn set_of_score(roll: Seq<u64>, num: u64) -> int {
    if has_qual_upto(roll, num, u64::MAX) {
        max_qual_upto(roll, num, u64::MAX) * num
    } else {
        0
    }
}

/// Score of `TwoPairs` (stated for five dice): the two highest disjoint
/// pairs' values summed; four of a kind counts as a double pair.
pub open spec fn two_pairs_score(roll: Seq<u64>) -> int {
    if roll.len() == 5 && has_qual_upto(roll, 2, u64::MAX) {
        let a = max_qual_upto(roll, 2, u64::MAX);
        if count_eq(roll, a) >= 4 {
            4 * a
        } else if a > 0 && has_qual_upto(roll, 2, (a - 1) as u64) {
            let b = max_qual_upto(roll, 2, (a - 1) as u64);
            2 * a + 2 * b
        } else {
            0
        }
    } else {
        0
    }
}

/// The roll (of five dice) splits into a three-of-a-kind and a pair.
pub open spec fn is_full_house(roll: Seq<u64>) -> bool {
    roll.len() == 5 && ((exists|a: u64, b: u64|
        a != b && #[trigger] count_eq(roll, a) >= 3 && #[trigger] count_eq(roll, b) >= 2)
        || (exists|a: u64| #[trigger] count_eq(roll, a) >= 5))
}

/// Every die shows the same value.
pub open spec fn is_yahtzee(roll: Seq<u64>) -> bool {
    forall|i: int, j: int|
        0 <= i < roll.len() && 0 <= j < roll.len() ==> roll[i] == roll[j]
}

/// The roll contains all of `top - len + 1 ..= top`.
pub open spec fn has_run(roll: Seq<u64>, top: u64, len: u64) -> bool {
    forall|v: u64| top - len < v <= top ==> #[trigger] roll.contains(v)
}

/// The roll contains a run of `min_length` consecutive distinct values
/// (duplicates elsewhere in the roll do not break the run).
pub open spec fn is_straight_spec(roll: Seq<u64>, min_length: u64) -> bool {
    exists|top: u64| top >= min_length && #[trigger] has_run(roll, top, min_length)
}

/// What each category scores for a roll.  `Bonus` never scores directly; it
/// is computed by the score-sheet updater alone.
pub open spec fn score_spec(s: Scoring, roll: Seq<u64>) -> int {
    match s {
        Scoring::Numbers { num } => num * count_eq(roll, num),
        Scoring::Bonus { .. } => 0,
        Scoring::SetOf { num } => set_of_score(roll, num),
        Scoring::Straight { min_length, value } => if is_straight_spec(roll, min_length) {
            value as int
        } else {
            0
        },
        Scoring::TwoPairs {  } => two_pairs_score(roll),
        Scoring::FullHouse { value } => if is_full_house(roll) {
            value as int
        } else {
            0
        },
        Scoring::Yahtzee { value } => if is_yahtzee(roll) {
            value as int
        } else {
            0
        },
        Scoring::Chance => seq_sum(roll),
    }
}

/// Whether the roll contains the value `v`.
fn contains_value(roll: &[u64], v: u64) -> (r: bool)
    ensures
        r == roll@.contains(v),
{
    let n = roll.len();
    let mut i: usize = 0;
    while i < n
        invariant
            0 <= i <= n,
            n == roll@.len(),
            forall|k: int| 0 <= k < i ==> roll@[k] != v,
        decreases n - i,
    {
        if roll[i] == v {
            return true;
        }
        i += 1;
    }
    false
}

/// How many dice of the roll show the value `v`.
fn count_matching(roll: &[u64], v: u64) -> (c: usize)
    ensures
        c as int == count_eq(roll@, v),
        c <= roll@.len(),
{
    let n = roll.len();
    let mut i: usize = 0;
    let mut c: usize = 0;
    while i < n
        invariant
            0 <= i <= n,
            n == roll@.len(),
            c as int == count_eq(roll@.take(i as int), v),
            c <= i,
        decreases n - i,
    {
        proof {
            lemma_count_eq_take_step(roll@, v, i as int);
        }
        if roll[i] == v {
            c += 1;
        }
        i += 1;
    }
    proof {
        lemma_take_all(roll@);
    }
    c
}

/// The largest value up to `cap` that at least `num` dice of the roll show.
fn best_qualifying(roll: &[u64], num: u64, cap: u64) -> (r: Option<u64>)
    requires
        num >= 1,
    ensures
        match r {
            Some(v) => v <= cap && count_eq(roll@, v) >= num && (forall|w: u64|
                v < w <= cap ==> #[trigger] count_eq(roll@, w) < num),
            None => forall|w: u64| w <= cap ==> #[trigger] count_eq(roll@, w) < num,
        },
{
    let n = roll.len();
    let mut best: Option<u64> = None;
    let mut i: usize = 0;
    while i < n
        invariant
            0 <= i <= n,
            n == roll@.len(),
            num >= 1,
            match best {
                Some(b) => b <= cap && count_eq(roll@, b) >= num,
                None => true,
            },
            forall|k: int|
                0 <= k < i && roll@[k] <= cap && count_eq(roll@, #[trigger] roll@[k]) >= num
                    ==> match best {
                    Some(b) => roll@[k] <= b,
                    None => false,
                },
        decreases n - i,
    {
        let v = roll[i];
        if v <= cap {
            let c = count_matching(roll, v);
            if num <= c as u64 {
                best = match best {
                    Some(b) => if v > b {
                        Some(v)
                    } else {
                        Some(b)
                    },
                    None => Some(v),
                };
            }
        }
        i += 1;
    }
    proof {
        match best {
            Some(b) => {
                assert forall|w: u64| b < w <= cap implies #[trigger] count_eq(roll@, w) < num by {
                    if count_eq(roll@, w) >= num {
                        let k = lemma_count_eq_witness(roll@, w);
                        assert(roll@[k] == w);
                    }
                }
            },
            None => {
                assert forall|w: u64| w <= cap implies #[trigger] count_eq(roll@, w) < num by {
                    if count_eq(roll@, w) >= num {
                        let k = lemma_count_eq_witness(roll@, w);
                        assert(roll@[k] == w);
                    }
                }
            },
        }
    }
    best
}

/// Whether at least two dice share a value other than `a`.
fn pair_excluding(roll: &[u64], a: u64) -> (r: bool)
    ensures
        r == exists|b: u64| b != a && #[trigger] count_eq(roll@, b) >= 2,
{
    let n = roll.len();
    let mut i: usize = 0;
    while i < n
        invariant
            0 <= i <= n,
            n == roll@.len(),
            forall|k: int|
                0 <= k < i ==> !(roll@[k] != a && count_eq(roll@, #[trigger] roll@[k]) >= 2),
        decreases n - i,
    {
        let v = roll[i];
        if v != a {
            let c = count_matching(roll, v);
            if c >= 2 {
                proof {
                    assert(v != a && count_eq(roll@, v) >= 2);
                }
                return true;
            }
        }
        i += 1;
    }
    proof {
        if exists|b: u64| b != a && #[trigger] count_eq(roll@, b) >= 2 {
            let b = choose|b: u64| b != a && #[trigger] count_eq(roll@, b) >= 2;
            let k = lemma_count_eq_witness(roll@, b);
            assert(roll@[k] == b);
        }
    }
    false
}

/// Whether every die of the roll shows the same value.
fn all_equal(roll: &[u64]) -> (r: bool)
    ensures
        r == is_yahtzee(roll@),
{
    let n = roll.len();
    if n == 0 {
        return true;
    }
    let first = roll[0];
    let mut i: usize = 1;
    while i < n
        invariant
            1 <= i <= n,
            n == roll@.len(),
            first == roll@[0],
            forall|k: int| 0 <= k < i ==> roll@[k] == first,
        decreases n - i,
    {
        if roll[i] != first {
            return false;
        }
        i += 1;
    }
    true
}

/// Whether the roll contains all of `top - len + 1 ..= top`.
fn run_down_from(roll: &[u64], top: u64, len: u64) -> (r: bool)
    requires
        top >= len,
    ensures
        r == has_run(roll@, top, len),
{
    let mut k: u64 = 0;
    while k < len
        invariant
            0 <= k <= len,
            top >= len,
            forall|v: u64| top - k < v <= top ==> #[trigger] roll@.contains(v),
        decreases len - k,
    {
        if !contains_value(roll, top - k) {
            proof {
                assert(top - len < top - k <= top);
            }
            return false;
        }
        k += 1;
    }
    true
}

/// Whether the roll contains a run of at least `min_length` consecutive
/// values.
pub fn is_straight_of_at_least(min_length: u64, roll: &[u64]) -> (r: bool)
    ensures
        r == is_straight_spec(roll@, min_length),
{
    if min_length == 0 {
        proof {
            assert(has_run(roll@, 0, 0));
        }
        return true;
    }
    let n = roll.len();
    let mut i: usize = 0;
    while i < n
        invariant
            0 <= i <= n,
            n == roll@.len(),
            min_length >= 1,
            forall|k: int|
                0 <= k < i ==> !(roll@[k] >= min_length && has_run(roll@, #[trigger] roll@[k],
                min_length)),
        decreases n - i,
    {
        let top = roll[i];
        if top >= min_length && run_down_from(roll, top, min_length) {
            return true;
        }
        i += 1;
    }
    proof {
        if is_straight_spec(roll@, min_length) {
            let top = choose|top: u64| top >= min_length && #[trigger] has_run(roll@, top,
            min_length);
            assert(roll@.contains(top)) by {
                assert(top - min_length < top <= top);
            }
            let j = choose|j: int| 0 <= j < roll@.len() && roll@[j] == top;
            assert(false);
        }
    }
    false
}

impl Scoring {
    /// The display name of the category.
    pub fn name(&self) -> (r: String)
        ensures
            r@ == self.name_spec(),
    {
        match *self {
            Scoring::Numbers { num } => match num {
                1 => "Ones".to_owned(),
                2 => "Twos".to_owned(),
                3 => "Threes".to_owned(),
                4 => "Fours".to_owned(),
                5 => "Fives".to_owned(),
                6 => "Sixes".to_owned(),
                _ => {
                    let mut s = decimal_string(num);
                    s.append("'s");
                    s
                },
            },
            Scoring::Bonus { .. } => "Bonus".to_owned(),
            Scoring::SetOf { num } => match num {
                2 => "Pair".to_owned(),
                _ => {
                    let mut s = "Set of ".to_owned();
                    let d = decimal_string(num);
                    s.append(d.as_str());
                    s
                },
            },
            Scoring::Straight { min_length, .. } => match min_length {
                4 => "Small Straight".to_owned(),
                5 => "Large Straight".to_owned(),
                _ => {
                    let mut s = "Straight of ".to_owned();
                    let d = decimal_string(min_length);
                    s.append(d.as_str());
                    s
                },
            },
            Scoring::TwoPairs {  } => "Two Pairs".to_owned(),
            Scoring::FullHouse { .. } => "Full House".to_owned(),
            Scoring::Yahtzee { .. } => "Yahtzee".to_owned(),
            Scoring::Chance => "Chance".to_owned(),
        }
    }

    /// The display name, as a sequence of characters.
    pub open spec fn name_spec(&self) -> Seq<char> {
        match *self {
            Scoring::Numbers { num } => if num == 1 {
                "Ones"@
            } else if num == 2 {
                "Twos"@
            } else if num == 3 {
                "Threes"@
            } else if num == 4 {
                "Fours"@
            } else if num == 5 {
                "Fives"@
            } else if num == 6 {
                "Sixes"@
            } else {
                dec_rep(num as int) + "'s"@
            },
            Scoring::Bonus { .. } => "Bonus"@,
            Scoring::SetOf { num } => if num == 2 {
                "Pair"@
            } else {
                "Set of "@ + dec_rep(num as int)
            },
            Scoring::Straight { min_length, .. } => if min_length == 4 {
                "Small Straight"@
            } else if min_length == 5 {
                "Large Straight"@
            } else {
                "Straight of "@ + dec_rep(min_length as int)
            },
            Scoring::TwoPairs {  } => "Two Pairs"@,
            Scoring::FullHouse { .. } => "Full House"@,
            Scoring::Yahtzee { .. } => "Yahtzee"@,
            Scoring::Chance => "Chance"@,
        }
    }

    /// The points this category awards for the roll.
    pub fn score(&self, roll: &[u64]) -> (r: u64)
        requires
            seq_sum(roll@) <= u64::MAX,
        ensures
            r as int == score_spec(*self, roll@),
    {
        match *self {
            Scoring::Numbers { num } => {
                let n = roll.len();
                let mut acc: u64 = 0;
                let mut i: usize = 0;
                while i < n
                    invariant
                        0 <= i <= n,
                        n == roll@.len(),
                        seq_sum(roll@) <= u64::MAX,
                        acc as int == num * count_eq(roll@.take(i as int), num),
                    decreases n - i,
                {
                    proof {
                        lemma_count_eq_take_step(roll@, num, i as int);
                    }
                    if roll[i] == num {
                        proof {
                            let c = count_eq(roll@.take(i as int), num);
                            lemma_count_eq_bounds(roll@.take(i as int), num);
                            assert(num * (c + 1) == num * c + num) by (nonlinear_arith);
                            lemma_mul_le_count(num, c + 1, roll@.take(i as int + 1));
                            lemma_seq_sum_take_le(roll@, i as int + 1);
                        }
                        acc = acc + num;
                    }
                    i += 1;
                }
                proof {
                    lemma_take_all(roll@);
                }
                acc
            },
            Scoring::Bonus { .. } => 0,
            Scoring::SetOf { num } => {
                if num == 0 {
                    proof {
                        lemma_count_eq_bounds(roll@, 0);
                        assert(count_eq(roll@, 0) >= 0);
                        assert(has_qual_upto(roll@, 0, u64::MAX));
                        lemma_max_qual(roll@, 0, u64::MAX);
                        assert(max_qual_upto(roll@, 0, u64::MAX) * 0 == 0);
                    }
                    return 0;
                }
                match best_qualifying(roll, num, u64::MAX) {
                    Some(v) => {
                        proof {
                            lemma_max_qual_is(roll@, num, u64::MAX, v);
                            lemma_mul_le_count(v, num as int, roll@);
                            assert(v * (num as int) == (v * num) as int) by (nonlinear_arith);
                        }
                        v * num
                    },
                    None => {
                        proof {
                            assert(!has_qual_upto(roll@, num, u64::MAX));
                        }
                        0
                    },
                }
            },
            Scoring::Straight { min_length, value } => {
                if is_straight_of_at_least(min_length, roll) {
                    value
                } else {
                    0
                }
            },
            Scoring::TwoPairs {  } => {
                if roll.len() != 5 {
                    return 0;
                }
                match best_qualifying(roll, 2, u64::MAX) {
                    None => {
                        proof {
                            assert(!has_qual_upto(roll@, 2, u64::MAX));
                        }
                        0
                    },
                    Some(a) => {
                        proof {
                            lemma_max_qual_is(roll@, 2, u64::MAX, a);
                        }
                        let ca = count_matching(roll, a);
                        if ca >= 4 {
                            proof {
                                lemma_mul_le_count(a, 4, roll@);
                            }
                            4 * a
                        } else if a == 0 {
                            proof {
                                lemma_count_eq_bounds(roll@, 0);
                            }
                            0
                        } else {
                            match best_qualifying(roll, 2, a - 1) {
                                Some(b) => {
                                    proof {
                                        lemma_max_qual_is(roll@, 2, (a - 1) as u64, b);
                                        lemma_two_counts_le_len(roll@, a, b);
                                        crate::sums::lemma_two_values_le_sum(roll@, a, b);
                                        assert(2 * a <= a * count_eq(roll@, a) && 2 * b <= b
                                            * count_eq(roll@, b)) by (nonlinear_arith)
                                            requires
                                                count_eq(roll@, a) >= 2,
                                                count_eq(roll@, b) >= 2,
                                                a >= 0,
                                                b >= 0,
                                        ;
                                        crate::sums::lemma_seq_sum_nonneg(roll@);
                                    }
                                    2 * a + 2 * b
                                },
                                None => {
                                    proof {
                                        assert(!has_qual_upto(roll@, 2, (a - 1) as u64));
                                    }
                                    0
                                },
                            }
                        }
                    },
                }
            },
            Scoring::FullHouse { value } => {
                if roll.len() != 5 {
                    return 0;
                }
                match best_qualifying(roll, 3, u64::MAX) {
                    None => {
                        proof {
                            assert(!is_full_house(roll@));
                        }
                        0
                    },
                    Some(a) => {
                        let ca = count_matching(roll, a);
                        if ca >= 5 {
                            proof {
                                assert(is_full_house(roll@));
                            }
                            value
                        } else if pair_excluding(roll, a) {
                            proof {
                                let b = choose|b: u64|
                                    b != a && #[trigger] count_eq(roll@, b) >= 2;
                                assert(count_eq(roll@, a) >= 3 && count_eq(roll@, b) >= 2);
                                assert(is_full_house(roll@));
                            }
                            value
                        } else {
                            proof {
                                if is_full_house(roll@) {
                                    if exists|x: u64| #[trigger] count_eq(roll@, x) >= 5 {
                                        let x = choose|x: u64| #[trigger] count_eq(roll@, x) >= 5;
                                        if x != a {
                                            lemma_two_counts_le_len(roll@, x, a);
                                        }
                                    } else {
                                        let (x, y): (u64, u64) = choose|x: u64, y: u64|
                                            x != y && #[trigger] count_eq(roll@, x) >= 3
                                                && #[trigger] count_eq(roll@, y) >= 2;
                                        if x != a {
                                            lemma_two_counts_le_len(roll@, x, a);
                                        }
                                        assert(y != a && count_eq(roll@, y) >= 2);
                                    }
                                }
                            }
                            0
                        }
                    },
                }
            },
            Scoring::Yahtzee { value } => {
                if all_equal(roll) {
                    value
                } else {
                    0
                }
            },
            Scoring::Chance => {
                let n = roll.len();
                let mut acc: u64 = 0;
                let mut i: usize = 0;
                while i < n
                    invariant
                        0 <= i <= n,
                        n == roll@.len(),
                        seq_sum(roll@) <= u64::MAX,
                        acc as int == seq_sum(roll@.take(i as int)),
                    decreases n - i,
                {
                    proof {
                        lemma_seq_sum_take_step(roll@, i as int);
                        lemma_seq_sum_take_le(roll@, i as int + 1);
                        crate::sums::lemma_seq_sum_nonneg(roll@.take(i as int));
                    }
                    acc = acc + roll[i];
                    i += 1;
                }
                proof {
                    lemma_take_all(roll@);
                }
                acc
            },
        }
    }
}

/// The reserved joker-rule mode.  It is configuration only: no rule of this
/// engine reads it yet.
#[derive(Clone, Copy, Debug, PartialEq)]
pub enum JokerRule {
    Forced,
    FreeChoice,
    Original,
    NoJoker,
}

/// The immutable configuration of a game: die shapes, the ordered scoring
/// categories (order defines score-sheet row identity), the rolls-per-turn
/// limit and the reserved joker-rule mode.
#[derive(Clone, Debug, PartialEq)]
pub struct Ruleset {
    pub dice: Vec<u64>,
    pub scorings: Vec<Scoring>,
    pub joker_rule: JokerRule,
    pub rolls: u64,
}

/// The mathematical value of a `Ruleset`.
#[verifier::ext_equal]
pub ghost struct RulesetV {
    pub dice: Seq<u64>,
    pub scorings: Seq<Scoring>,
    pub joker_rule: JokerRule,
    pub rolls: u64,
}

impl View for Ruleset {
    type V = RulesetV;

    open spec fn view(&self) -> RulesetV {
        RulesetV {
            dice: self.dice@,
            scorings: self.scorings@,
            joker_rule: self.joker_rule,
            rolls: self.rolls,
        }
    }
}

impl RulesetV {
    /// A usable configuration: every die has at least one face, at least one
    /// roll per turn is allowed, and the dice are small enough that any
    /// roll's sum fits in a `u64`.
    pub open spec fn wf(self) -> bool {
        &&& forall|i: int| 0 <= i < self.dice.len() ==> 1 <= #[trigger] self.dice[i]
        &&& self.dice.len() * seq_max(self.dice) <= u64::MAX
        &&& self.rolls >= 1
    }
}

/// How many `Bonus` rows the category list has.
pub open spec fn bonus_count(scorings: Seq<Scoring>) -> int
    decreases scorings.len(),
{
    if scorings.len() == 0 {
        0
    } else {
        bonus_count(scorings.drop_last()) + if scorings.last() is Bonus {
            1int
        } else {
            0int
        }
    }
}

/// The index of the bonus row (meaningful when there is exactly one).
pub open spec fn the_bonus_index(scorings: Seq<Scoring>) -> int {
    choose|i: int| 0 <= i < scorings.len() && scorings[i] is Bonus
}

/// Number of rounds a game lasts: one per selectable (non-bonus) category.
pub open spec fn rounds_spec(scorings: Seq<Scoring>) -> int {
    scorings.len() - bonus_count(scorings)
}

/// Extending a prefix by one category counts it when it is the bonus row.
pub proof fn lemma_bonus_count_take_step(scorings: Seq<Scoring>, i: int)
    requires
        0 <= i < scorings.len(),
    ensures
        bonus_count(scorings.take(i + 1)) == bonus_count(scorings.take(i)) + if scorings[i]
            is Bonus {
            1int
        } else {
            0int
        },
{
    assert(scorings.take(i + 1).drop_last() =~= scorings.take(i));
}

/// The count of bonus rows lies between 0 and the length.
pub proof fn lemma_bonus_count_bounds(scorings: Seq<Scoring>)
    ensures
        0 <= bonus_count(scorings) <= scorings.len(),
    decreases scorings.len(),
{
    if scorings.len() > 0 {
        lemma_bonus_count_bounds(scorings.drop_last());
    }
}

/// A bonus row makes the count positive.
pub proof fn lemma_bonus_at(scorings: Seq<Scoring>, i: int)
    requires
        0 <= i < scorings.len(),
        scorings[i] is Bonus,
    ensures
        bonus_count(scorings) >= 1,
    decreases scorings.len(),
{
    lemma_bonus_count_bounds(scorings.drop_last());
    if i < scorings.len() - 1 {
        lemma_bonus_at(scorings.drop_last(), i);
    }
}

/// Two distinct bonus rows make the count at least two.
pub proof fn lemma_bonus_two(scorings: Seq<Scoring>, i: int, j: int)
    requires
        0 <= i < scorings.len(),
        0 <= j < scorings.len(),
        i != j,
        scorings[i] is Bonus,
        scorings[j] is Bonus,
    ensures
        bonus_count(scorings) >= 2,
    decreases scorings.len(),
{
    if i == scorings.len() - 1 {
        lemma_bonus_at(scorings.drop_last(), j);
    } else if j == scorings.len() - 1 {
        lemma_bonus_at(scorings.drop_last(), i);
    } else {
        lemma_bonus_two(scorings.drop_last(), i, j);
    }
}

/// With exactly one bonus row, any bonus index is the bonus index.
pub proof fn lemma_the_bonus_index_is(scorings: Seq<Scoring>, i: int)
    requires
        bonus_count(scorings) == 1,
        0 <= i < scorings.len(),
        scorings[i] is Bonus,
    ensures
        the_bonus_index(scorings) == i,
{
    assert(0 <= i < scorings.len() && scorings[i] is Bonus);
    let k = the_bonus_index(scorings);
    if k != i {
        lemma_bonus_two(scorings, k, i);
    }
}

impl Ruleset {
    /// How many rounds a game of this ruleset lasts: one per selectable
    /// (non-bonus) category.
    pub fn rounds(&self) -> (r: usize)
        ensures
            r as int == rounds_spec(self.scorings@),
    {
        let n = self.scorings.len();
        let mut bcount: usize = 0;
        let mut i: usize = 0;
        while i < n
            invariant
                0 <= i <= n,
                n == self.scorings@.len(),
                bcount as int == bonus_count(self.scorings@.take(i as int)),
                bcount <= i,
            decreases n - i,
        {
            proof {
                lemma_bonus_count_take_step(self.scorings@, i as int);
            }
            if matches!(self.scorings[i], Scoring::Bonus { .. }) {
                bcount += 1;
            }
            i += 1;
        }
        proof {
            lemma_take_all(self.scorings@);
        }
        n - bcount
    }
}

/// Sum of the filled slots of a score sheet (an empty slot counts as 0).
pub open spec fn sheet_points(sheet: Seq<Option<u64>>) -> int
    decreases sheet.len(),
{
    if sheet.len() == 0 {
        0
    } else {
        sheet_points(sheet.drop_last()) + match sheet.last() {
            Some(p) => p as int,
            None => 0,
        }
    }
}

/// Every slot of the sheet is filled.
pub open spec fn all_filled(sheet: Seq<Option<u64>>) -> bool {
    forall|i: int| 0 <= i < sheet.len() ==> sheet[i] is Some
}

/// Extending a prefix by one slot adds that slot's points.
pub proof fn lemma_sheet_points_take_step(sheet: Seq<Option<u64>>, i: int)
    requires
        0 <= i < sheet.len(),
    ensures
        sheet_points(sheet.take(i + 1)) == sheet_points(sheet.take(i)) + match sheet[i] {
            Some(p) => p as int,
            None => 0int,
        },
{
    assert(sheet.take(i + 1).drop_last() =~= sheet.take(i));
}

/// A sheet's points are never negative.
pub proof fn lemma_sheet_points_nonneg(sheet: Seq<Option<u64>>)
    ensures
        sheet_points(sheet) >= 0,
    decreases sheet.len(),
{
    if sheet.len() > 0 {
        lemma_sheet_points_nonneg(sheet.drop_last());
    }
}

/// A prefix of a sheet has at most the whole sheet's points.
pub proof fn lemma_sheet_points_take_le(sheet: Seq<Option<u64>>, i: int)
    requires
        0 <= i <= sheet.len(),
    ensures
        sheet_points(sheet.take(i)) <= sheet_points(sheet),
    decreases sheet.len() - i,
{
    if i < sheet.len() {
        lemma_sheet_points_take_step(sheet, i);
        lemma_sheet_points_take_le(sheet, i + 1);
    } else {
        lemma_take_all(sheet);
    }
}

/// The threshold of a bonus category (0 for any other category).
pub open spec fn bonus_threshold(s: Scoring) -> u64 {
    match s {
        Scoring::Bonus { min_points, .. } => min_points,
        _ => 0,
    }
}

/// The value of a bonus category (0 for any other category).
pub open spec fn bonus_value(s: Scoring) -> u64 {
    match s {
        Scoring::Bonus { value, .. } => value,
        _ => 0,
    }
}

/// The automatic bonus step run after every successful placement: when the
/// ruleset has exactly one bonus row and that row is still empty, it is
/// scored as soon as every row above it is filled or their points reach the
/// threshold; it receives the bonus value when the threshold was reached and
/// 0 otherwise.  Once set, the bonus row is never recomputed.
pub open spec fn bonus_pass(sheet: Seq<Option<u64>>, scorings: Seq<Scoring>) -> Seq<Option<u64>> {
    if bonus_count(scorings) == 1 {
        let bi = the_bonus_index(scorings);
        if bi < sheet.len() && sheet[bi] is None {
            let affecting = sheet.take(bi);
            let crossed = sheet_points(affecting) >= bonus_threshold(scorings[bi]);
            if all_filled(affecting) || crossed {
                sheet.update(
                    bi,
                    Some(
                        if crossed {
                            bonus_value(scorings[bi])
                        } else {
                            0u64
                        },
                    ),
                )
            } else {
                sheet
            }
        } else {
            sheet
        }
    } else {
        sheet
    }
}

/// What a score-sheet update returns: the new sheet, or the error that left
/// the sheet untouched.
///
/// The selected row must exist and must not be the bonus row; a filled slot
/// rejects the update unless the Yahtzee accumulation exception applies, in
/// which case the new points are added to the existing ones.  After the
/// placement the automatic bonus step of `bonus_pass` runs.
pub open spec fn update_spec(
    sheet: Seq<Option<u64>>,
    scorings: Seq<Scoring>,
    idx: int,
    roll: Seq<u64>,
) -> Result<Seq<Option<u64>>, InvalidAction> {
    if !(0 <= idx < scorings.len() && idx < sheet.len()) {
        Err(InvalidAction::OutOfBounds)
    } else if scorings[idx] is Bonus {
        Err(InvalidAction::NotSelectable)
    } else {
        let base = score_spec(scorings[idx], roll);
        match sheet[idx] {
            Some(existing) => if scorings[idx] is Yahtzee && base > 0 && existing > 0 {
                Ok(bonus_pass(sheet.update(idx, Some((base + existing) as u64)), scorings))
            } else {
                Err(InvalidAction::AlreadyOccupied)
            },
            None => Ok(bonus_pass(sheet.update(idx, Some(base as u64)), scorings)),
        }
    }
}

/// Every `u64` the update computes stays in bounds: the roll's sum, the
/// accumulated Yahtzee points, and the points of the rows above the bonus
/// row.
pub open spec fn update_fits(
    sheet: Seq<Option<u64>>,
    scorings: Seq<Scoring>,
    idx: int,
    roll: Seq<u64>,
) -> bool {
    &&& seq_sum(roll) <= u64::MAX
    &&& if 0 <= idx < scorings.len() && idx < sheet.len() && !(scorings[idx] is Bonus) {
        let base = score_spec(scorings[idx], roll);
        let points = match sheet[idx] {
            Some(existing) => if scorings[idx] is Yahtzee && base > 0 && existing > 0 {
                base + existing
            } else {
                base
            },
            None => base,
        };
        let placed = sheet.update(idx, Some(points as u64));
        &&& points <= u64::MAX
        &&& (bonus_count(scorings) == 1 ==> {
            let bi = the_bonus_index(scorings);
            bi < placed.len() ==> sheet_points(placed.take(bi)) <= u64::MAX
        })
    } else {
        true
    }
}

/// Applies a scoring choice to a score sheet: places the points the selected
/// category awards for the roll, then runs the automatic bonus step.  The
/// result is a fresh sheet; the input is never mutated, and on any error
/// nothing has been placed at all.
pub fn update_score_sheet(
    score_sheet: &[Option<u64>],
    scorings: &[Scoring],
    selected_index: usize,
    roll: &[u64],
) -> (r: Result<Vec<Option<u64>>, InvalidAction>)
    requires
        score_sheet@.len() == scorings@.len(),
        update_fits(score_sheet@, scorings@, selected_index as int, roll@),
    ensures
        match r {
            Ok(ns) => update_spec(score_sheet@, scorings@, selected_index as int, roll@)
                == Ok::<Seq<Option<u64>>, InvalidAction>(ns@),
            Err(e) => update_spec(score_sheet@, scorings@, selected_index as int, roll@)
                == Err::<Seq<Option<u64>>, InvalidAction>(e),
        },
{
    if selected_index >= scorings.len() {
        return Err(InvalidAction::OutOfBounds);
    }
    let scoring = scorings[selected_index];
    if matches!(scoring, Scoring::Bonus { .. }) {
        return Err(InvalidAction::NotSelectable);
    }
    let base = scoring.score(roll);
    let points: u64 = match score_sheet[selected_index] {
        Some(existing) => {
            if matches!(scoring, Scoring::Yahtzee { .. }) && base > 0 && existing > 0 {
                base + existing
            } else {
                return Err(InvalidAction::AlreadyOccupied);
            }
        },
        None => base,
    };
    let mut new_sheet = vstd::slice::slice_to_vec(score_sheet);
    new_sheet.set(selected_index, Some(points));
    let ghost placed = score_sheet@.update(selected_index as int, Some(points));
    proof {
        assert(new_sheet@ =~= placed);
    }

    // The automatic bonus step: find the bonus row, if there is exactly one.
    let n = scorings.len();
    let mut bcount: usize = 0;
    let mut bindex: usize = 0;
    let mut i: usize = 0;
    while i < n
        invariant
            0 <= i <= n,
            n == scorings@.len(),
            bcount as int == bonus_count(scorings@.take(i as int)),
            bcount <= i,
            bcount >= 1 ==> bindex < i && scorings@[bindex as int] is Bonus,
        decreases n - i,
    {
        proof {
            lemma_bonus_count_take_step(scorings@, i as int);
        }
        if matches!(scorings[i], Scoring::Bonus { .. }) {
            bcount += 1;
            bindex = i;
        }
        i += 1;
    }
    proof {
        lemma_take_all(scorings@);
    }
    if bcount == 1 {
        proof {
            lemma_the_bonus_index_is(scorings@, bindex as int);
        }
        if matches!(new_sheet[bindex], None) {
            let (min_points, value) = match scorings[bindex] {
                Scoring::Bonus { min_points, value } => (min_points, value),
                _ => (0, 0),
            };
            let mut filled = true;
            let mut total: u64 = 0;
            let mut j: usize = 0;
            while j < bindex
                invariant
                    0 <= j <= bindex,
                    bindex < new_sheet@.len(),
                    new_sheet@ == placed,
                    sheet_points(placed.take(bindex as int)) <= u64::MAX,
                    total as int == sheet_points(placed.take(j as int)),
                    filled == all_filled(placed.take(j as int)),
                decreases bindex - j,
            {
                proof {
                    lemma_sheet_points_take_step(placed, j as int);
                    lemma_sheet_points_take_le(placed.take(bindex as int), j as int + 1);
                    assert(placed.take(bindex as int).take(j as int + 1) =~= placed.take(
                        j as int + 1,
                    ));
                    assert(forall|k: int| 0 <= k < j + 1 ==> placed.take(j as int + 1)[k]
                        == placed[k]);
                }
                match new_sheet[j] {
                    Some(p) => {
                        proof {
                            lemma_sheet_points_nonneg(placed.take(j as int));
                        }
                        total = total + p;
                    },
                    None => {
                        filled = false;
                    },
                }
                proof {
                    assert(all_filled(placed.take(j as int + 1)) <==> (all_filled(placed.take(
                        j as int,
                    )) && placed[j as int] is Some)) by {
                        assert(forall|k: int| 0 <= k < j ==> placed.take(j as int + 1)[k]
                            == placed.take(j as int)[k]);
                    }
                }
                j += 1;
            }
            let crossed = total >= min_points;
            if filled || crossed {
                new_sheet.set(bindex, Some(if crossed { value } else { 0 }));
                proof {
                    assert(new_sheet@ =~= bonus_pass(placed, scorings@));
                }
            } else {
                proof {
                    assert(new_sheet@ == bonus_pass(placed, scorings@));
                }
            }
        }
    } else {
        proof {
            if bcount == 0 {
                assert(bonus_count(scorings@) == 0);
            } else {
                assert(bonus_count(scorings@) != 1);
            }
            assert(new_sheet@ == bonus_pass(placed, scorings@));
        }
    }
    Ok(new_sheet)
}

/// The value `mini_rules` builds.
pub open spec fn mini_rules_spec() -> RulesetV {
    RulesetV {
        dice: seq![6u64, 6u64, 6u64, 6u64, 6u64],
        scorings: seq![
            Scoring::Numbers { num: 6 },
            Scoring::Bonus { min_points: 24, value: 50 },
            Scoring::FullHouse { value: 25 },
            Scoring::Straight { min_length: 4, value: 30 },
        ],
        joker_rule: JokerRule::Forced,
        rolls: 3,
    }
}

/// A small ruleset: five six-sided dice and four categories.  Mainly useful
/// for short games and testing.
pub fn mini_rules() -> (r: Ruleset)
    ensures
        r@ == mini_rules_spec(),
        r@.wf(),
{
    let mut dice: Vec<u64> = Vec::new();
    let mut k: usize = 0;
    while k < 5
        invariant
            0 <= k <= 5,
            dice@.len() == k,
            forall|i: int| 0 <= i < k ==> dice@[i] == 6,
        decreases 5 - k,
    {
        dice.push(6);
        k += 1;
    }
    let mut scorings: Vec<Scoring> = Vec::new();
    scorings.push(Scoring::Numbers { num: 6 });
    scorings.push(Scoring::Bonus { min_points: 24, value: 50 });
    scorings.push(Scoring::FullHouse { value: 25 });
    scorings.push(Scoring::Straight { min_length: 4, value: 30 });
    let r = Ruleset { dice, scorings, joker_rule: JokerRule::Forced, rolls: 3 };
    proof {
        assert(r@.dice =~= mini_rules_spec().dice);
        assert(r@.scorings =~= mini_rules_spec().scorings);
        assert(r@ =~= mini_rules_spec());
        lemma_seq_max_le(r@.dice, 6);
    }
    r
}

/// The value `ee_rules` builds.
pub open spec fn ee_rules_spec() -> RulesetV {
    RulesetV {
        dice: seq![6u64, 6u64, 6u64, 6u64, 6u64],
        scorings: seq![
            Scoring::Numbers { num: 1 },
            Scoring::Numbers { num: 2 },
            Scoring::Numbers { num: 3 },
            Scoring::Numbers { num: 4 },
            Scoring::Numbers { num: 5 },
            Scoring::Numbers { num: 6 },
            Scoring::Bonus { min_points: 63, value: 50 },
            Scoring::SetOf { num: 3 },
            Scoring::SetOf { num: 4 },
            Scoring::FullHouse { value: 25 },
            Scoring::Straight { min_length: 4, value: 30 },
            Scoring::Straight { min_length: 5, value: 40 },
            Scoring::Chance,
            Scoring::Yahtzee { value: 50 },
        ],
        joker_rule: JokerRule::Forced,
        rolls: 3,
    }
}

/// The classic ruleset: five six-sided dice, the six number rows, a bonus at
/// 63 points, and the usual combination categories.
pub fn ee_rules() -> (r: Ruleset)
    ensures
        r@ == ee_rules_spec(),
        r@.wf(),
{
    let mut dice: Vec<u64> = Vec::new();
    let mut k: usize = 0;
    while k < 5
        invariant
            0 <= k <= 5,
            dice@.len() == k,
            forall|i: int| 0 <= i < k ==> dice@[i] == 6,
        decreases 5 - k,
    {
        dice.push(6);
        k += 1;
    }
    let mut scorings: Vec<Scoring> = Vec::new();
    scorings.push(Scoring::Numbers { num: 1 });
    scorings.push(Scoring::Numbers { num: 2 });
    scorings.push(Scoring::Numbers { num: 3 });
    scorings.push(Scoring::Numbers { num: 4 });
    scorings.push(Scoring::Numbers { num: 5 });
    scorings.push(Scoring::Numbers { num: 6 });
    scorings.push(Scoring::Bonus { min_points: 63, value: 50 });
    scorings.push(Scoring::SetOf { num: 3 });
    scorings.push(Scoring::SetOf { num: 4 });
    scorings.push(Scoring::FullHouse { value: 25 });
    scorings.push(Scoring::Straight { min_length: 4, value: 30 });
    scorings.push(Scoring::Straight { min_length: 5, value: 40 });
    scorings.push(Scoring::Chance);
    scorings.push(Scoring::Yahtzee { value: 50 });
    let r = Ruleset { dice, scorings, joker_rule: JokerRule::Forced, rolls: 3 };
    proof {
        assert(r@.dice =~= ee_rules_spec().dice);
        assert(r@.scorings =~= ee_rules_spec().scorings);
        assert(r@ =~= ee_rules_spec());
        lemma_seq_max_le(r@.dice, 6);
    }
    r
}

/// A ruleset for mixed dice: a d4, a d6, a d8 and two d10, with number rows
/// up to ten.
pub fn roleplayers_rules() -> (r: Ruleset)
    ensures
        r@.dice == seq![4u64, 6u64, 8u64, 10u64, 10u64],
        r@.scorings.len() == 18,
        r@.joker_rule == JokerRule::Forced,
        r@.rolls == 3,
        r@.wf(),
{
    let mut dice: Vec<u64> = Vec::new();
    dice.push(4);
    dice.push(6);
    dice.push(8);
    dice.push(10);
    dice.push(10);
    let mut scorings: Vec<Scoring> = Vec::new();
    let mut num: u64 = 1;
    while num <= 10
        invariant
            1 <= num <= 11,
            scorings@.len() == num - 1,
        decreases 11 - num,
    {
        scorings.push(Scoring::Numbers { num });
        num += 1;
    }
    scorings.push(Scoring::Bonus { min_points: 105, value: 50 });
    scorings.push(Scoring::SetOf { num: 3 });
    scorings.push(Scoring::SetOf { num: 4 });
    scorings.push(Scoring::FullHouse { value: 25 });
    scorings.push(Scoring::Straight { min_length: 4, value: 30 });
    scorings.push(Scoring::Straight { min_length: 5, value: 40 });
    scorings.push(Scoring::Chance);
    scorings.push(Scoring::Yahtzee { value: 50 });
    let r = Ruleset { dice, scorings, joker_rule: JokerRule::Forced, rolls: 3 };
    proof {
        assert(r@.dice =~= seq![4u64, 6u64, 8u64, 10u64, 10u64]);
        lemma_seq_max_le(r@.dice, 10);
    }
    r
}

/// The score-sheet invariant: a successful update fills exactly the selected
/// slot (or strictly increases a filled Yahtzee slot), leaves every other
/// slot unchanged except possibly the bonus slot, and the bonus slot can
/// only go from empty to filled.
pub proof fn lemma_update_changes_one_slot(
    sheet: Seq<Option<u64>>,
    scorings: Seq<Scoring>,
    idx: int,
    roll: Seq<u64>,
)
    requires
        update_spec(sheet, scorings, idx, roll) is Ok,
        update_fits(sheet, scorings, idx, roll),
    ensures
        ({
            let ns = update_spec(sheet, scorings, idx, roll)->Ok_0;
            let bi = the_bonus_index(scorings);
            &&& ns.len() == sheet.len()
            &&& 0 <= idx < sheet.len()
            &&& match sheet[idx] {
                None => ns[idx] is Some,
                Some(e) => ns[idx] is Some && ns[idx]->0 > e,
            }
            &&& forall|j: int|
                0 <= j < sheet.len() && j != idx && !(bonus_count(scorings) == 1 && j == bi)
                    ==> ns[j] == sheet[j]
            &&& (bonus_count(scorings) == 1 && bi != idx && 0 <= bi < sheet.len() ==> (ns[bi]
                == sheet[bi] || (sheet[bi] is None && ns[bi] is Some)))
        }),
{
    let base = score_spec(scorings[idx], roll);
    let points: int = match sheet[idx] {
        Some(existing) => base + existing,
        None => base,
    };
    let placed = sheet.update(idx, Some(points as u64));
    let ns = update_spec(sheet, scorings, idx, roll)->Ok_0;
    assert(ns == bonus_pass(placed, scorings));
    match sheet[idx] {
        Some(e) => {
            assert(base > 0);
            assert(placed[idx] == Some((base + e) as u64));
            assert(points <= u64::MAX);
            assert(placed[idx]->0 > e);
        },
        None => {},
    }
    if bonus_count(scorings) == 1 {
        let bi = the_bonus_index(scorings);
        assert(0 <= bi < scorings.len() && scorings[bi] is Bonus) by {
            lemma_bonus_count_bounds(scorings);
            if !(exists|i: int| 0 <= i < scorings.len() && scorings[i] is Bonus) {
                lemma_no_bonus_count_zero(scorings);
            }
        }
        assert(bi != idx);
    }
}

/// A category list with no bonus row has bonus count zero.
proof fn lemma_no_bonus_count_zero(scorings: Seq<Scoring>)
    requires
        forall|i: int| 0 <= i < scorings.len() ==> !(#[trigger] scorings[i] is Bonus),
    ensures
        bonus_count(scorings) == 0,
    decreases scorings.len(),
{
    if scorings.len() > 0 {
        lemma_no_bonus_count_zero(scorings.drop_last());
    }
}

} // verus!
