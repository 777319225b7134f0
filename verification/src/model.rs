//! The mathematical model of the aggregation.
//!
//! All quantities are integer nanosecond counts. The irrational weights of the
//! escalation formula (Euler's number and its powers) are represented in fixed
//! point with `SCALE` as the unit; the model is exact about that fixed-point
//! arithmetic, and the executable code matches it bit for bit.

use vstd::prelude::*;
use vstd::arithmetic::div_mod::lemma_div_by_multiple;
use vstd::arithmetic::div_mod::lemma_div_is_ordered;
use vstd::arithmetic::div_mod::lemma_div_pos_is_pos;
use vstd::arithmetic::mul::lemma_mul_nonnegative;
use vstd::arithmetic::mul::lemma_mul_upper_bound;

use crate::rules::Rules;
use crate::rules::spec_base_nanos;

verus! {

/// Contributions decay linearly to zero over this horizon (720 days),
/// measured backwards from the reference instant.
pub const HORIZON_NANOS: u128 = 62_208_000_000_000_000;

/// The fixed-point unit: a weight of `SCALE` means a factor of one.
pub const SCALE: u128 = 1_000_000_000_000;

/// Euler's number in fixed point (rounded to the nearest unit).
pub const E_SCALED: u128 = 2_718_281_828_459;

/// Euler's number minus one, in fixed point.
pub const E_MINUS_ONE_SCALED: u128 = E_SCALED - SCALE;

/// Escalation weights saturate here: `WEIGHT_CAP / SCALE` is the largest
/// factor a single violation can be escalated by.
pub const WEIGHT_CAP: u128 = 100_000_000_000_000_000_000;

/// The earned penalty total saturates here (about thirty billion years);
/// saturation keeps the aggregation total on histories of any length.
pub const TOTAL_CAP: u128 = 1_000_000_000_000_000_000_000_000_000;

/// The largest base duration any category carries (seven days).
pub const MAX_BASE_NANOS: u128 = 604_800_000_000_000;

/// An upper bound on a single decay-discounted base duration; it holds
/// because timestamps are `i64` nanosecond counts, so the decay numerator
/// is at most `HORIZON_NANOS` plus the full `i64` range.
pub const DISCOUNT_BOUND: u128 = 200_000_000_000_000_000;

/// An upper bound on a single weighted contribution:
/// `DISCOUNT_BOUND * WEIGHT_CAP / SCALE`.
pub const CONTRIB_BOUND: u128 = 20_000_000_000_000_000_000_000_000;

/// The numerator of the linear decay factor for a warn issued at `t`,
/// relative to the reference instant `t0`: `HORIZON - (t0 - t)`, floored at
/// zero. Dividing it by `HORIZON_NANOS` gives `max(0, 1 - (t0 - t)/720d)`.
pub open spec fn decay_numerator(t0: int, t: int) -> int {
    if HORIZON_NANOS - (t0 - t) <= 0 {
        0
    } else {
        HORIZON_NANOS - (t0 - t)
    }
}

/// The decay-discounted value of one warn: its category's base duration,
/// scaled by the linear decay factor.
pub open spec fn discounted(base: int, t0: int, t: int) -> int {
    (base * decay_numerator(t0, t)) / (HORIZON_NANOS as int)
}

/// The fixed-point escalation weight of the `k`-th repeat warn of a category
/// (`k >= 1`): `(e - 1) * e^(k-1)`, saturated at `WEIGHT_CAP`.
pub open spec fn weight(k: nat) -> int
    decreases k,
{
    if k <= 1 {
        E_MINUS_ONE_SCALED as int
    } else {
        let w = weight((k - 1) as nat) * E_SCALED / (SCALE as int);
        if w > WEIGHT_CAP {
            WEIGHT_CAP as int
        } else {
            w
        }
    }
}

/// The contribution of the warn standing at position `j` of its category's
/// group: the first warn of a group counts at full weight, each repeat is
/// multiplied by its escalation weight.
pub open spec fn contribution(base: int, t0: int, t: int, j: nat) -> int {
    if j == 0 {
        discounted(base, t0, t)
    } else {
        discounted(base, t0, t) * weight(j) / (SCALE as int)
    }
}

/// Accumulation step: addition saturated at `TOTAL_CAP`.
pub open spec fn add_capped(acc: int, c: int) -> int {
    if acc + c > TOTAL_CAP {
        TOTAL_CAP as int
    } else {
        acc + c
    }
}

/// Folds the contributions of one category's instants into the running
/// total, the instant at the front carrying position `j`.
pub open spec fn fold_group(acc: int, base: int, t0: int, ts: Seq<i64>, j: nat) -> int
    decreases ts.len(),
{
    if ts.len() == 0 {
        acc
    } else {
        fold_group(add_capped(acc, contribution(base, t0, ts[0] as int, j)), base, t0, ts.skip(1), j + 1)
    }
}

/// Folds whole groups, in order, into the running total.
pub open spec fn fold_groups<P>(acc: int, t0: int, gs: Seq<(Rules<P>, Seq<i64>)>) -> int
    decreases gs.len(),
{
    if gs.len() == 0 {
        acc
    } else {
        fold_groups(fold_group(acc, spec_base_nanos(gs[0].0), t0, gs[0].1, 0), t0, gs.skip(1))
    }
}

/// The index of the group of category `c`, or `-1` if no group has it yet.
pub open spec fn find_group<P>(gs: Seq<(Rules<P>, Seq<i64>)>, c: Rules<P>) -> int
    decreases gs.len(),
{
    if gs.len() == 0 {
        -1
    } else if gs[0].0 == c {
        0
    } else {
        let r = find_group(gs.skip(1), c);
        if r < 0 {
            -1
        } else {
            r + 1
        }
    }
}

/// Files one warn into the groups: appended to its category's group if one
/// exists, else opening a new group at the end.
pub open spec fn insert_warn<P>(
    gs: Seq<(Rules<P>, Seq<i64>)>,
    w: (Rules<P>, i64),
) -> Seq<(Rules<P>, Seq<i64>)> {
    let j = find_group(gs, w.0);
    if j < 0 {
        gs.push((w.0, seq![w.1]))
    } else {
        gs.update(j, (gs[j].0, gs[j].1.push(w.1)))
    }
}

/// Groups a history by category, one linear scan, keeping both the order of
/// first appearance of the categories and the order of warns inside a group.
pub open spec fn groups_of<P>(h: Seq<(Rules<P>, i64)>) -> Seq<(Rules<P>, Seq<i64>)>
    decreases h.len(),
{
    if h.len() == 0 {
        Seq::empty()
    } else {
        insert_warn(groups_of(h.drop_last()), h.last())
    }
}

/// The earned penalty total of a history, in nanoseconds: each category's
/// decayed, escalation-weighted contributions, summed over all categories,
/// saturated at `TOTAL_CAP`. The reference instant is the first warn's.
pub open spec fn earned_nanos<P>(h: Seq<(Rules<P>, i64)>) -> int {
    if h.len() == 0 {
        0
    } else {
        fold_groups(0, h[0].1 as int, groups_of(h))
    }
}

/// What remains of the earned total after the time elapsed since the
/// reference instant is subtracted.
pub open spec fn remaining_nanos<P>(h: Seq<(Rules<P>, i64)>, now: int) -> int {
    earned_nanos(h) - (now - h[0].1)
}

/// The aggregation result: `None` on an empty history and whenever the
/// remaining duration is not strictly positive.
pub open spec fn spec_remaining<P>(h: Seq<(Rules<P>, i64)>, now: int) -> Option<crate::rules::Duration> {
    if h.len() == 0 {
        None
    } else if remaining_nanos(h, now) > 0 {
        Some(crate::rules::Duration { nanos: remaining_nanos(h, now) as i128 })
    } else {
        None
    }
}

/// Every category's base duration is strictly positive and at most
/// `MAX_BASE_NANOS`.
pub proof fn lemma_base_bounds<P>(r: Rules<P>)
    ensures
        0 < spec_base_nanos(r) <= MAX_BASE_NANOS,
{
}

/// Escalation weights are strictly positive and never exceed `WEIGHT_CAP`.
pub proof fn lemma_weight_bounds(k: nat)
    requires
        1 <= k,
    ensures
        0 < weight(k) <= WEIGHT_CAP,
    decreases k,
{
    if k <= 1 {
    } else {
        lemma_weight_bounds((k - 1) as nat);
        let wp = weight((k - 1) as nat);
        assert(wp * (SCALE as int) <= wp * (E_SCALED as int)) by (nonlinear_arith)
            requires
                0 <= wp,
        ;
        lemma_div_is_ordered(wp * (SCALE as int), wp * (E_SCALED as int), SCALE as int);
        lemma_div_by_multiple(wp, SCALE as int);
    }
}

/// The decay-discounted value of one warn is non-negative and, as long as
/// the base duration and the timestamps are in range, at most
/// `DISCOUNT_BOUND`.
pub proof fn lemma_discounted_bounds(base: int, t0: int, t: int)
    requires
        0 < base <= MAX_BASE_NANOS,
        i64::MIN <= t0 <= i64::MAX,
        i64::MIN <= t <= i64::MAX,
    ensures
        0 <= discounted(base, t0, t) <= DISCOUNT_BOUND,
{
    let dn = decay_numerator(t0, t);
    assert(0 <= dn <= 18_508_952_073_709_551_615);
    lemma_mul_nonnegative(base, dn);
    assert(base * dn <= 12_441_600_000_000_000_000_000_000_000_000_000) by (nonlinear_arith)
        requires
            0 <= base <= 604_800_000_000_000,
            0 <= dn <= 18_508_952_073_709_551_615,
    ;
    assert((DISCOUNT_BOUND as int) * (HORIZON_NANOS as int)
        == 12_441_600_000_000_000_000_000_000_000_000_000) by (nonlinear_arith);
    lemma_div_pos_is_pos(base * dn, HORIZON_NANOS as int);
    lemma_div_is_ordered(base * dn, (DISCOUNT_BOUND as int) * (HORIZON_NANOS as int), HORIZON_NANOS as int);
    lemma_div_by_multiple(DISCOUNT_BOUND as int, HORIZON_NANOS as int);
}

/// One warn's weighted contribution is non-negative and at most
/// `CONTRIB_BOUND`.
pub proof fn lemma_contribution_bounds(base: int, t0: int, t: int, j: nat)
    requires
        0 < base <= MAX_BASE_NANOS,
        i64::MIN <= t0 <= i64::MAX,
        i64::MIN <= t <= i64::MAX,
    ensures
        0 <= contribution(base, t0, t, j) <= CONTRIB_BOUND,
{
    lemma_discounted_bounds(base, t0, t);
    let d = discounted(base, t0, t);
    if j == 0 {
    } else {
        lemma_weight_bounds(j);
        lemma_mul_nonnegative(d, weight(j));
        lemma_mul_upper_bound(d, DISCOUNT_BOUND as int, weight(j), WEIGHT_CAP as int);
        assert((DISCOUNT_BOUND as int) * (WEIGHT_CAP as int)
            == (CONTRIB_BOUND as int) * (SCALE as int)) by (nonlinear_arith);
        lemma_div_pos_is_pos(d * weight(j), SCALE as int);
        lemma_div_is_ordered(d * weight(j), (CONTRIB_BOUND as int) * (SCALE as int), SCALE as int);
        lemma_div_by_multiple(CONTRIB_BOUND as int, SCALE as int);
    }
}

/// The group fold never leaves `[acc, TOTAL_CAP]` when every timestamp is in
/// the `i64` range.
pub proof fn lemma_fold_group_bounds(acc: int, base: int, t0: int, ts: Seq<i64>, j: nat)
    requires
        0 <= acc <= TOTAL_CAP,
        0 < base <= MAX_BASE_NANOS,
        i64::MIN <= t0 <= i64::MAX,
    ensures
        acc <= fold_group(acc, base, t0, ts, j) <= TOTAL_CAP,
    decreases ts.len(),
{
    if ts.len() == 0 {
    } else {
        lemma_contribution_bounds(base, t0, ts[0] as int, j);
        lemma_fold_group_bounds(add_capped(acc, contribution(base, t0, ts[0] as int, j)), base, t0, ts.skip(1), j + 1);
    }
}

/// The fold over whole groups never leaves `[acc, TOTAL_CAP]`.
pub proof fn lemma_fold_groups_bounds<P>(acc: int, t0: int, gs: Seq<(Rules<P>, Seq<i64>)>)
    requires
        0 <= acc <= TOTAL_CAP,
        i64::MIN <= t0 <= i64::MAX,
    ensures
        acc <= fold_groups(acc, t0, gs) <= TOTAL_CAP,
    decreases gs.len(),
{
    if gs.len() == 0 {
    } else {
        lemma_base_bounds(gs[0].0);
        lemma_fold_group_bounds(acc, spec_base_nanos(gs[0].0), t0, gs[0].1, 0);
        lemma_fold_groups_bounds(fold_group(acc, spec_base_nanos(gs[0].0), t0, gs[0].1, 0), t0, gs.skip(1));
    }
}

/// If no group carries category `c`, `find_group` reports `-1`.
pub proof fn lemma_find_group_absent<P>(gs: Seq<(Rules<P>, Seq<i64>)>, c: Rules<P>)
    requires
        forall|k: int| 0 <= k < gs.len() ==> gs[k].0 != c,
    ensures
        find_group(gs, c) == -1,
    decreases gs.len(),
{
    if gs.len() == 0 {
    } else {
        assert(gs[0].0 != c);
        assert(forall|k: int| 0 <= k < gs.skip(1).len() ==> #[trigger] gs.skip(1)[k] == gs[k + 1]);
        lemma_find_group_absent(gs.skip(1), c);
    }
}

/// If position `j` is the first group of category `c`, `find_group` finds it.
pub proof fn lemma_find_group_at<P>(gs: Seq<(Rules<P>, Seq<i64>)>, c: Rules<P>, j: int)
    requires
        0 <= j < gs.len(),
        gs[j].0 == c,
        forall|k: int| 0 <= k < j ==> gs[k].0 != c,
    ensures
        find_group(gs, c) == j,
    decreases gs.len(),
{
    if j == 0 {
    } else {
        assert(gs[0].0 != c);
        assert(forall|k: int| 0 <= k < gs.skip(1).len() ==> #[trigger] gs.skip(1)[k] == gs[k + 1]);
        lemma_find_group_at(gs.skip(1), c, j - 1);
    }
}

/// Grouping a history extended by one warn files that warn into the groups
/// of the shorter history.
pub proof fn lemma_groups_of_push<P>(h: Seq<(Rules<P>, i64)>, w: (Rules<P>, i64))
    ensures
        groups_of(h.push(w)) == insert_warn(groups_of(h), w),
{
    assert(h.push(w).drop_last() =~= h);
    assert(h.push(w).last() == w);
}

/// `find_group` reports `-1` or an index that carries the category it was
/// asked for.
pub proof fn lemma_find_group_range<P>(gs: Seq<(Rules<P>, Seq<i64>)>, c: Rules<P>)
    ensures
        find_group(gs, c) == -1 || (0 <= find_group(gs, c) < gs.len() && gs[find_group(gs, c)].0
            == c),
    decreases gs.len(),
{
    if gs.len() == 0 {
    } else if gs[0].0 == c {
    } else {
        lemma_find_group_range(gs.skip(1), c);
    }
}

/// Grouping one more warn of a history files it into the groups of the
/// prefix before it.
pub proof fn lemma_groups_of_take_step<P>(h: Seq<(Rules<P>, i64)>, i: int)
    requires
        0 <= i < h.len(),
    ensures
        groups_of(h.take(i + 1)) == insert_warn(groups_of(h.take(i)), h[i]),
{
    assert(h.take(i + 1).drop_last() =~= h.take(i));
    assert(h.take(i + 1).last() == h[i]);
}

} // verus!
