//! Laws of the aggregation: proved properties that relate whole histories,
//! beyond the contract of any single function.

use vstd::prelude::*;
use vstd::arithmetic::div_mod::lemma_div_by_multiple;

use crate::model::MAX_BASE_NANOS;
use crate::model::TOTAL_CAP;
use crate::model::add_capped;
use crate::model::contribution;
use crate::model::discounted;
use crate::model::earned_nanos;
use crate::model::find_group;
use crate::model::fold_group;
use crate::model::fold_groups;
use crate::model::groups_of;
use crate::model::insert_warn;
use crate::model::lemma_base_bounds;
use crate::model::lemma_contribution_bounds;
use crate::model::lemma_find_group_range;
use crate::model::lemma_fold_group_bounds;
use crate::model::lemma_fold_groups_bounds;
use crate::model::lemma_groups_of_push;
use crate::model::remaining_nanos;
use crate::model::spec_remaining;
use crate::rules::Duration;
use crate::rules::Rules;
use crate::rules::spec_base_nanos;

verus! {

/// Appending one instant to a group folds in exactly one more contribution,
/// standing at the position after all the group's other warns.
proof fn lemma_fold_group_append(acc: int, base: int, t0: int, ts: Seq<i64>, t: i64, j: nat)
    ensures
        fold_group(acc, base, t0, ts.push(t), j) == add_capped(
            fold_group(acc, base, t0, ts, j),
            contribution(base, t0, t as int, (j + ts.len()) as nat),
        ),
    decreases ts.len(),
{
    if ts.len() == 0 {
        assert(ts.push(t)[0] == t);
        assert(ts.push(t).skip(1) =~= Seq::<i64>::empty());
        let a2 = add_capped(acc, contribution(base, t0, t as int, j));
        assert(fold_group(a2, base, t0, Seq::<i64>::empty(), j + 1) == a2);
        assert(fold_group(acc, base, t0, ts, j) == acc);
    } else {
        assert(ts.push(t)[0] == ts[0]);
        assert(ts.push(t).skip(1) =~= ts.skip(1).push(t));
        lemma_fold_group_append(
            add_capped(acc, contribution(base, t0, ts[0] as int, j)),
            base,
            t0,
            ts.skip(1),
            t,
            j + 1,
        );
    }
}

/// Folding a group of one instant folds in exactly its contribution.
proof fn lemma_fold_group_singleton(acc: int, base: int, t0: int, t: i64, j: nat)
    ensures
        fold_group(acc, base, t0, seq![t], j) == add_capped(
            acc,
            contribution(base, t0, t as int, j),
        ),
{
    assert(seq![t][0] == t);
    assert(seq![t].skip(1) =~= Seq::<i64>::empty());
    let a2 = add_capped(acc, contribution(base, t0, t as int, j));
    assert(fold_group(a2, base, t0, Seq::<i64>::empty(), j + 1) == a2);
}

/// The group fold is monotone in its accumulator, and strictly so as long as
/// the larger side has not saturated.
proof fn lemma_fold_group_mono_acc(acc1: int, acc2: int, base: int, t0: int, ts: Seq<i64>, j: nat)
    requires
        0 <= acc1 <= acc2 <= TOTAL_CAP,
        0 < base <= MAX_BASE_NANOS,
        i64::MIN <= t0 <= i64::MAX,
    ensures
        fold_group(acc1, base, t0, ts, j) <= fold_group(acc2, base, t0, ts, j),
        acc1 < acc2 && fold_group(acc2, base, t0, ts, j) < TOTAL_CAP ==> fold_group(
            acc1,
            base,
            t0,
            ts,
            j,
        ) < fold_group(acc2, base, t0, ts, j),
    decreases ts.len(),
{
    if ts.len() == 0 {
    } else {
        let c = contribution(base, t0, ts[0] as int, j);
        lemma_contribution_bounds(base, t0, ts[0] as int, j);
        lemma_fold_group_bounds(add_capped(acc2, c), base, t0, ts.skip(1), j + 1);
        lemma_fold_group_mono_acc(
            add_capped(acc1, c),
            add_capped(acc2, c),
            base,
            t0,
            ts.skip(1),
            j + 1,
        );
    }
}

/// The fold over whole groups is monotone in its accumulator, and strictly
/// so as long as the larger side has not saturated.
proof fn lemma_fold_groups_mono_acc<P>(acc1: int, acc2: int, t0: int, gs: Seq<(Rules<P>, Seq<i64>)>)
    requires
        0 <= acc1 <= acc2 <= TOTAL_CAP,
        i64::MIN <= t0 <= i64::MAX,
    ensures
        fold_groups(acc1, t0, gs) <= fold_groups(acc2, t0, gs),
        acc1 < acc2 && fold_groups(acc2, t0, gs) < TOTAL_CAP ==> fold_groups(acc1, t0, gs)
            < fold_groups(acc2, t0, gs),
    decreases gs.len(),
{
    if gs.len() == 0 {
    } else {
        let base = spec_base_nanos(gs[0].0);
        lemma_base_bounds(gs[0].0);
        let a1 = fold_group(acc1, base, t0, gs[0].1, 0);
        let a2 = fold_group(acc2, base, t0, gs[0].1, 0);
        lemma_fold_group_mono_acc(acc1, acc2, base, t0, gs[0].1, 0);
        lemma_fold_group_bounds(acc1, base, t0, gs[0].1, 0);
        lemma_fold_group_bounds(acc2, base, t0, gs[0].1, 0);
        lemma_fold_groups_bounds(a2, t0, gs.skip(1));
        lemma_fold_groups_mono_acc(a1, a2, t0, gs.skip(1));
    }
}

/// Folding one more group at the end folds it into the total of the groups
/// before it.
proof fn lemma_fold_groups_push<P>(
    acc: int,
    t0: int,
    gs: Seq<(Rules<P>, Seq<i64>)>,
    x: (Rules<P>, Seq<i64>),
)
    ensures
        fold_groups(acc, t0, gs.push(x)) == fold_group(
            fold_groups(acc, t0, gs),
            spec_base_nanos(x.0),
            t0,
            x.1,
            0,
        ),
    decreases gs.len(),
{
    if gs.len() == 0 {
        assert(gs.push(x)[0] == x);
        assert(gs.push(x).skip(1) =~= Seq::<(Rules<P>, Seq<i64>)>::empty());
        let f = fold_group(acc, spec_base_nanos(x.0), t0, x.1, 0);
        assert(fold_groups(f, t0, Seq::<(Rules<P>, Seq<i64>)>::empty()) == f);
        assert(fold_groups(acc, t0, gs) == acc);
    } else {
        assert(gs.push(x)[0] == gs[0]);
        assert(gs.push(x).skip(1) =~= gs.skip(1).push(x));
        lemma_fold_groups_push(
            fold_group(acc, spec_base_nanos(gs[0].0), t0, gs[0].1, 0),
            t0,
            gs.skip(1),
            x,
        );
    }
}

/// Appending one instant to the group at position `j` never lowers the fold
/// over the groups, and raises it strictly as long as the new contribution is
/// positive and the result has not saturated.
proof fn lemma_fold_groups_update<P>(
    acc: int,
    t0: int,
    gs: Seq<(Rules<P>, Seq<i64>)>,
    j: int,
    t: i64,
)
    requires
        0 <= j < gs.len(),
        0 <= acc <= TOTAL_CAP,
        i64::MIN <= t0 <= i64::MAX,
    ensures
        ({
            let gsu = gs.update(j, (gs[j].0, gs[j].1.push(t)));
            let cnew = contribution(spec_base_nanos(gs[j].0), t0, t as int, gs[j].1.len());
            &&& fold_groups(acc, t0, gsu) >= fold_groups(acc, t0, gs)
            &&& (cnew > 0 && fold_groups(acc, t0, gsu) < TOTAL_CAP ==> fold_groups(acc, t0, gsu)
                > fold_groups(acc, t0, gs))
        }),
    decreases gs.len(),
{
    let gsu = gs.update(j, (gs[j].0, gs[j].1.push(t)));
    let base = spec_base_nanos(gs[j].0);
    let cnew = contribution(base, t0, t as int, gs[j].1.len());
    lemma_base_bounds(gs[j].0);
    lemma_contribution_bounds(base, t0, t as int, gs[j].1.len());
    if j == 0 {
        assert(gsu[0] == (gs[0].0, gs[0].1.push(t)));
        assert(gsu.skip(1) =~= gs.skip(1));
        let a = fold_group(acc, base, t0, gs[0].1, 0);
        lemma_fold_group_append(acc, base, t0, gs[0].1, t, 0);
        lemma_fold_group_bounds(acc, base, t0, gs[0].1, 0);
        let au = add_capped(a, cnew);
        assert(fold_groups(acc, t0, gsu) == fold_groups(au, t0, gs.skip(1)));
        lemma_fold_groups_mono_acc(a, au, t0, gs.skip(1));
        lemma_fold_groups_bounds(au, t0, gs.skip(1));
    } else {
        assert(gsu[0] == gs[0]);
        assert(gsu.skip(1) =~= gs.skip(1).update(j - 1, (gs[j].0, gs[j].1.push(t))));
        assert(gs.skip(1)[j - 1] == gs[j]);
        let base0 = spec_base_nanos(gs[0].0);
        lemma_base_bounds(gs[0].0);
        let a = fold_group(acc, base0, t0, gs[0].1, 0);
        lemma_fold_group_bounds(acc, base0, t0, gs[0].1, 0);
        lemma_fold_groups_update(a, t0, gs.skip(1), j - 1, t);
    }
}

/// The position the added warn takes inside its category's group: at the end
/// of the existing group, or opening a new group.
pub open spec fn new_warn_position<P>(h: Seq<(Rules<P>, i64)>, w: (Rules<P>, i64)) -> nat {
    let gs = groups_of(h);
    let f = find_group(gs, w.0);
    if f < 0 {
        0
    } else {
        gs[f].1.len()
    }
}

/// The contribution the added warn brings to the earned total: its category's
/// base duration, decayed against the reference instant and weighted by its
/// position inside its group.
pub open spec fn new_warn_contribution<P>(h: Seq<(Rules<P>, i64)>, w: (Rules<P>, i64)) -> int {
    contribution(spec_base_nanos(w.0), h[0].1 as int, w.1 as int, new_warn_position(h, w))
}

/// Law: adding one more warn to a non-empty history never lowers the earned
/// penalty total, and raises it strictly whenever the new warn's decayed,
/// weighted contribution is positive and the total has not saturated at
/// `TOTAL_CAP`. The contribution is zero exactly when the new warn's value
/// has fully decayed (it is older than the decay horizon).
pub proof fn lemma_added_warn_monotonic<P>(h: Seq<(Rules<P>, i64)>, w: (Rules<P>, i64))
    requires
        h.len() >= 1,
    ensures
        earned_nanos(h.push(w)) >= earned_nanos(h),
        new_warn_contribution(h, w) > 0 && earned_nanos(h.push(w)) < TOTAL_CAP ==> earned_nanos(
            h.push(w),
        ) > earned_nanos(h),
{
    let hw = h.push(w);
    let t0: int = h[0].1 as int;
    let gs = groups_of(h);
    let f = find_group(gs, w.0);
    lemma_groups_of_push(h, w);
    lemma_find_group_range(gs, w.0);
    assert(hw[0] == h[0]);
    assert(earned_nanos(hw) == fold_groups(0, t0, insert_warn(gs, w)));
    if f < 0 {
        let x = (w.0, seq![w.1]);
        assert(insert_warn(gs, w) == gs.push(x));
        lemma_fold_groups_push(0, t0, gs, x);
        let e = fold_groups(0, t0, gs);
        lemma_fold_groups_bounds(0, t0, gs);
        lemma_base_bounds(w.0);
        lemma_contribution_bounds(spec_base_nanos(w.0), t0, w.1 as int, 0);
        lemma_fold_group_singleton(e, spec_base_nanos(w.0), t0, w.1, 0);
        assert(fold_group(e, spec_base_nanos(w.0), t0, x.1, 0) == add_capped(
            e,
            new_warn_contribution(h, w),
        ));
    } else {
        assert(insert_warn(gs, w) == gs.update(f, (gs[f].0, gs[f].1.push(w.1))));
        assert(spec_base_nanos(gs[f].0) == spec_base_nanos(w.0));
        lemma_fold_groups_update(0, t0, gs, f, w.1);
    }
}

/// Law: on a history of a single warn, what remains is the warn's full base
/// duration minus the time elapsed since its issuance. The warn is its own
/// reference instant, so its decay factor is exactly one.
pub proof fn lemma_single_warn_remaining<P>(h: Seq<(Rules<P>, i64)>, now: int)
    requires
        h.len() == 1,
    ensures
        remaining_nanos(h, now) == spec_base_nanos(h[0].0) - (now - h[0].1),
{
    let t0: int = h[0].1 as int;
    let base = spec_base_nanos(h[0].0);
    lemma_base_bounds(h[0].0);
    assert(h.drop_last() =~= Seq::<(Rules<P>, i64)>::empty());
    assert(h.last() == h[0]);
    let empty_groups = Seq::<(Rules<P>, Seq<i64>)>::empty();
    assert(groups_of(Seq::<(Rules<P>, i64)>::empty()) == empty_groups);
    assert(find_group(empty_groups, h[0].0) == -1);
    let gs = groups_of(h);
    assert(gs == empty_groups.push((h[0].0, seq![h[0].1])));
    assert(gs[0] == (h[0].0, seq![h[0].1]));
    assert(gs.skip(1) =~= empty_groups);
    assert(discounted(base, t0, t0) == base) by {
        lemma_div_by_multiple(base, crate::model::HORIZON_NANOS as int);
    }
    lemma_fold_group_singleton(0, base, t0, h[0].1, 0);
    assert(fold_group(0, base, t0, seq![h[0].1], 0) == base);
    assert(fold_groups(base, t0, empty_groups) == base);
    assert(earned_nanos(h) == base);
}

/// Law: a history of a single warn whose base duration has fully elapsed
/// since its issuance yields no active ban.
pub proof fn lemma_single_stale_warn<P>(h: Seq<(Rules<P>, i64)>, now: int)
    requires
        h.len() == 1,
        now - h[0].1 >= spec_base_nanos(h[0].0),
    ensures
        spec_remaining(h, now) is None,
{
    lemma_single_warn_remaining(h, now);
}

/// Law: the aggregation is a pure function of the history and the frozen
/// reference clock — results computed from the same inputs are equal.
pub proof fn lemma_deterministic<P>(
    h: Seq<(Rules<P>, i64)>,
    now: int,
    r1: Option<Duration>,
    r2: Option<Duration>,
)
    requires
        r1 == spec_remaining(h, now),
        r2 == spec_remaining(h, now),
    ensures
        r1 == r2,
{
}

} // verus!
