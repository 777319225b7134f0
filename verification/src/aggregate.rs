//! The ban-time aggregator: the executable computation, proved equal to the
//! model in `model`.

use vstd::prelude::*;
use vstd::arithmetic::div_mod::lemma_div_nonincreasing;

use crate::model::CONTRIB_BOUND;
use crate::model::DISCOUNT_BOUND;
use crate::model::E_MINUS_ONE_SCALED;
use crate::model::E_SCALED;
use crate::model::HORIZON_NANOS;
use crate::model::MAX_BASE_NANOS;
use crate::model::SCALE;
use crate::model::TOTAL_CAP;
use crate::model::WEIGHT_CAP;
use crate::model::add_capped;
use crate::model::contribution;
use crate::model::decay_numerator;
use crate::model::discounted;
use crate::model::earned_nanos;
use crate::model::find_group;
use crate::model::fold_group;
use crate::model::fold_groups;
use crate::model::groups_of;
use crate::model::insert_warn;
use crate::model::lemma_base_bounds;
use crate::model::lemma_contribution_bounds;
use crate::model::lemma_discounted_bounds;
use crate::model::lemma_find_group_absent;
use crate::model::lemma_find_group_at;
use crate::model::lemma_groups_of_take_step;
use crate::model::lemma_weight_bounds;
use crate::model::remaining_nanos;
use crate::model::spec_remaining;
use crate::model::weight;
use crate::rules::Duration;
use crate::rules::PlayerId;
use crate::rules::Rules;
use crate::rules::spec_base_nanos;

verus! {

/// The groups a grouping loop has built, seen as the model sees them.
pub open spec fn view_groups(gs: Seq<(Rules<PlayerId>, Vec<i64>)>) -> Seq<(Rules<PlayerId>, Seq<i64>)> {
    gs.map_values(|g: (Rules<PlayerId>, Vec<i64>)| (g.0, g.1@))
}

/// The index of the group of category `c`, if one exists.
fn find_index(
    groups: &Vec<(Rules<PlayerId>, Vec<i64>)>,
    c: Rules<PlayerId>,
) -> (r: Option<usize>)
    ensures
        match r {
            Some(j) => j < groups@.len() && find_group(view_groups(groups@), c) == j as int,
            None => find_group(view_groups(groups@), c) == -1,
        },
{
    let mut j: usize = 0;
    while j < groups.len()
        invariant
            j <= groups@.len(),
            forall|k: int| 0 <= k < j ==> view_groups(groups@)[k].0 != c,
        decreases groups@.len() - j,
    {
        let cj: Rules<PlayerId> = (&groups[j]).0;
        if cj == c {
            proof {
                lemma_find_group_at(view_groups(groups@), c, j as int);
            }
            return Some(j);
        }
        j = j + 1;
    }
    proof {
        lemma_find_group_absent(view_groups(groups@), c);
    }
    None
}

/// The decay-discounted value of one warn issued at `t`, with reference
/// instant `t0`: the base duration scaled by `max(0, 1 - (t0 - t)/720d)`.
fn discount(base: u128, t0: i64, t: i64) -> (d: u128)
    requires
        0 < base <= MAX_BASE_NANOS,
    ensures
        d as int == discounted(base as int, t0 as int, t as int),
        d <= DISCOUNT_BOUND,
{
    proof {
        lemma_discounted_bounds(base as int, t0 as int, t as int);
    }
    let dt: i128 = (t0 as i128) - (t as i128);
    let dns: i128 = (HORIZON_NANOS as i128) - dt;
    if dns <= 0 {
        proof {
            assert(decay_numerator(t0 as int, t as int) == 0);
        }
        0
    } else {
        let dn: u128 = dns as u128;
        proof {
            assert(dn as int == decay_numerator(t0 as int, t as int));
            assert((base as int) * (dn as int) <= 12_441_600_000_000_000_000_000_000_000_000_000)
                by (nonlinear_arith)
                requires
                    0 <= base as int <= 604_800_000_000_000,
                    0 <= dn as int <= 18_508_952_073_709_551_615,
            ;
        }
        let num: u128 = base * dn;
        num / HORIZON_NANOS
    }
}

/// Computes the remaining ban time of a violation history against the frozen
/// instant `now` (nanoseconds since the Unix epoch).
///
/// The first warn of the history is the reference instant; callers are
/// expected to put the most recent, triggering warn first. Returns `None` on
/// an empty history and whenever the computed remaining duration is not
/// strictly positive.
pub fn get_remaining_ban_time_at(
    warns: &Vec<(Rules<PlayerId>, i64)>,
    now: i64,
) -> (r: Option<Duration>)
    ensures
        r == spec_remaining(warns@, now as int),
        warns@.len() == 0 ==> r is None,
        r matches Some(d) ==> d.nanos > 0,
{
    if warns.len() == 0 {
        return None;
    }
    let t0: i64 = warns[0].1;

    let mut groups: Vec<(Rules<PlayerId>, Vec<i64>)> = Vec::new();
    let mut i: usize = 0;
    while i < warns.len()
        invariant
            i <= warns@.len(),
            view_groups(groups@) == groups_of(warns@.take(i as int)),
        decreases warns@.len() - i,
    {
        let c: Rules<PlayerId> = warns[i].0;
        let t: i64 = warns[i].1;
        let ghost pre = view_groups(groups@);
        let ghost g0 = groups@;
        proof {
            lemma_groups_of_take_step(warns@, i as int);
            assert(warns@[i as int] == (c, t));
        }
        match find_index(&groups, c) {
            Some(j) => {
                let (cj, mut tsj) = groups.remove(j);
                tsj.push(t);
                groups.insert(j, (cj, tsj));
                proof {
                    let post = view_groups(groups@);
                    let target = insert_warn(pre, (c, t));
                    assert(target == pre.update(j as int, (pre[j as int].0, pre[j as int].1.push(t))));
                    g0.remove_ensures(j as int);
                    g0.remove(j as int).insert_ensures(j as int, (cj, tsj));
                    assert forall|k: int| 0 <= k < post.len() implies post[k] == target[k] by {
                        if k < j as int {
                            assert(groups@[k] == g0[k]);
                        } else if k == j as int {
                            assert(groups@[k] == (cj, tsj));
                        } else {
                            assert(groups@[k] == g0.remove(j as int)[k - 1]);
                            assert(g0.remove(j as int)[k - 1] == g0[k]);
                        }
                    }
                    assert(post =~= target);
                }
            },
            None => {
                let mut ts: Vec<i64> = Vec::new();
                ts.push(t);
                groups.push((c, ts));
                proof {
                    assert(ts@ =~= seq![t]);
                    assert(view_groups(groups@) =~= pre.push((c, seq![t])));
                }
            },
        }
        i = i + 1;
    }
    proof {
        assert(warns@.take(warns@.len() as int) =~= warns@);
    }

    let ghost gsv = view_groups(groups@);
    proof {
        assert(gsv.skip(0) =~= gsv);
    }
    let mut total: u128 = 0;
    let mut g: usize = 0;
    while g < groups.len()
        invariant
            g <= groups@.len(),
            total <= TOTAL_CAP,
            view_groups(groups@) == gsv,
            fold_groups(total as int, t0 as int, gsv.skip(g as int)) == fold_groups(
                0,
                t0 as int,
                gsv,
            ),
        decreases groups@.len() - g,
    {
        let c: Rules<PlayerId> = (&groups[g]).0;
        let inf = c.info();
        let base_i: i128 = inf.duration.nanos;
        proof {
            lemma_base_bounds(c);
        }
        let base: u128 = base_i as u128;

        let ghost entry_total = total as int;
        let ghost ts_seq = gsv[g as int].1;
        let tsv: &Vec<i64> = &groups[g].1;
        proof {
            assert(tsv@ == ts_seq);
            assert(ts_seq.skip(0) =~= ts_seq);
        }

        let mut j: usize = 0;
        let mut w: u128 = 0;
        while j < tsv.len()
            invariant
                j <= tsv@.len(),
                tsv@ == ts_seq,
                0 < base <= MAX_BASE_NANOS,
                base as int == spec_base_nanos(c),
                total <= TOTAL_CAP,
                2 <= j ==> w as int == weight((j - 1) as nat),
                fold_group(total as int, base as int, t0 as int, ts_seq.skip(j as int), j as nat)
                    == fold_group(entry_total, base as int, t0 as int, ts_seq, 0),
            decreases tsv@.len() - j,
        {
            let t: i64 = tsv[j];
            let d: u128 = discount(base, t0, t);
            proof {
                lemma_contribution_bounds(base as int, t0 as int, t as int, j as nat);
            }
            let cn: u128;
            if j == 0 {
                cn = d;
            } else {
                if j == 1 {
                    w = E_MINUS_ONE_SCALED;
                } else {
                    proof {
                        lemma_weight_bounds((j - 1) as nat);
                        assert((w as int) * 2_718_281_828_459
                            <= 271_828_182_845_900_000_000_000_000_000_000) by (nonlinear_arith)
                            requires
                                0 <= w as int <= 100_000_000_000_000_000_000,
                        ;
                    }
                    let wn: u128 = w * E_SCALED;
                    w = wn / SCALE;
                    if w > WEIGHT_CAP {
                        w = WEIGHT_CAP;
                    }
                }
                proof {
                    assert(w as int == weight(j as nat));
                    lemma_weight_bounds(j as nat);
                    assert((d as int) * (w as int)
                        <= 20_000_000_000_000_000_000_000_000_000_000_000_000) by (nonlinear_arith)
                        requires
                            0 <= d as int <= 200_000_000_000_000_000,
                            0 <= w as int <= 100_000_000_000_000_000_000,
                    ;
                }
                let prod: u128 = d * w;
                cn = prod / SCALE;
                proof {
                    lemma_div_nonincreasing(prod as int, SCALE as int);
                }
            }
            proof {
                assert(cn as int == contribution(base as int, t0 as int, t as int, j as nat));
                assert(cn <= CONTRIB_BOUND);
            }
            let ghost pre_total = total as int;
            let s: u128 = total + cn;
            if s > TOTAL_CAP {
                total = TOTAL_CAP;
            } else {
                total = s;
            }
            proof {
                assert(total as int == add_capped(pre_total, cn as int));
                assert(ts_seq.skip(j as int)[0] == ts_seq[j as int]);
                assert(ts_seq.skip(j as int).skip(1) =~= ts_seq.skip(j as int + 1));
            }
            j = j + 1;
        }
        proof {
            assert(ts_seq.skip(ts_seq.len() as int) =~= Seq::<i64>::empty());
            assert(total as int == fold_group(entry_total, base as int, t0 as int, ts_seq, 0));
            assert(gsv.skip(g as int)[0] == gsv[g as int]);
            assert(gsv.skip(g as int).skip(1) =~= gsv.skip(g as int + 1));
        }
        g = g + 1;
    }
    proof {
        assert(gsv.skip(gsv.len() as int) =~= Seq::<(Rules<PlayerId>, Seq<i64>)>::empty());
        assert(total as int == earned_nanos(warns@));
    }

    let elapsed: i128 = (now as i128) - (t0 as i128);
    let remaining: i128 = (total as i128) - elapsed;
    proof {
        assert(remaining as int == remaining_nanos(warns@, now as int));
    }
    if remaining > 0 {
        Some(Duration { nanos: remaining })
    } else {
        None
    }
}

/// Relies on `time::OffsetDateTime::now_utc` and `unix_timestamp_nanos`: the
/// current wall-clock time, as nanoseconds since the Unix epoch (narrowed to
/// `i64`, which holds every instant between the years 1677 and 2262).
#[verifier::external_body]
fn now_unix_nanos() -> i64 {
    time::OffsetDateTime::now_utc().unix_timestamp_nanos() as i64
}

/// Computes the remaining ban time of a violation history against the
/// current wall-clock time; see [`get_remaining_ban_time_at`].
pub fn get_remaining_ban_time(
    warns: &Vec<(Rules<PlayerId>, i64)>,
) -> (r: Option<Duration>)
    ensures
        exists|now: int| r == spec_remaining(warns@, now),
        warns@.len() == 0 ==> r is None,
        r matches Some(d) ==> d.nanos > 0,
{
    let now = now_unix_nanos();
    let r = get_remaining_ban_time_at(warns, now);
    proof {
        assert(r == spec_remaining(warns@, now as int));
    }
    r
}

} // verus!
