//! Daily simulation driver: completes a solver's pair-variable values into
//! a full assignment, validates it against the built model, extracts the
//! day's realized output and wasted time, and applies realized output to
//! the remaining per-skill needs, retiring satisfied targets.
//!
//! The solver itself is an outside capability; every function here takes
//! its output as a plain argument and is verified for every value of it.

use vstd::prelude::*;
use crate::types::{
    Person, Target, Error, al_contains, al_index, al_value, al_distinct, person_wf,
    lemma_al_found, al_find, names_find, SCALE, MAX_TIME, MAX_BONUS, MAX_NEED, MAX_RANK,
};
use vstd::arithmetic::div_mod::lemma_fundamental_div_mod;
use crate::model::{
    sum_of, check_solution, lemma_sum_of_ext, lemma_sum_of_zero_each, lemma_sum_of_zero,
};
use crate::builder::{
    seg_count, combo_count, target_count, safety_count, combo_area, combo_var, skill_var, seg_var,
    roi_var, var_count, seg_name, seg_duration, combo_len, combo_bonus, combo_has_skill,
    target_skill, target_need, invested_in_skill, invested_in_segment, weighted_roi, combo_within,
    combo_allowed_in, feasible_allocation, nonnegative, totals_consistent, roi_consistent,
    build_model, check_combo_within, lemma_counts, lemma_area_nonneg, lemma_combo_var_in_area,
    lemma_model_sound, lemma_model_complete,
};

verus! {

// ---------------------------------------------------------------------
// Eligibility: which targets can make progress at all
// ---------------------------------------------------------------------

/// Training the skill `sk` as part of a combo is not blocked by a zero
/// safety limit: if `sk` is under target and has a safety limit, the limit
/// is positive.
pub open spec fn partner_open(p: Person, sk: Seq<char>) -> bool {
    al_contains(p.target@, sk) && al_contains(p.safety_limit@, sk) ==> al_value(
        p.safety_limit@,
        sk,
    ) as int > 0
}

/// Combo `j` can realize positive output within segment `i`: the combo is
/// allowed there, the segment has time, the bonus is positive, and no
/// constituent skill is pinned to zero hours by a safety limit.
pub open spec fn eligible_pair(p: Person, i: int, j: int) -> bool {
    &&& combo_allowed_in(p, i, j)
    &&& seg_duration(p, i) > 0
    &&& combo_bonus(p, j) > 0
    &&& forall|q: int| 0 <= q < combo_len(p, j) ==> #[trigger] partner_open(
        p,
        p.overlap@[j].combo@[q]@,
    )
}

/// Skill `k` has at least one eligible (segment, combo) pair.
pub open spec fn can_train(p: Person, k: Seq<char>) -> bool {
    exists|i: int, j: int|
        0 <= i < seg_count(p) && 0 <= j < combo_count(p) && combo_has_skill(p, j, k)
            && #[trigger] eligible_pair(p, i, j)
}

/// Whether combo `j` may receive time in segment `i`, executable.
fn combo_allowed_exec(p: &Person, i: usize, j: usize) -> (r: bool)
    requires
        person_wf(*p),
        (i as int) < seg_count(*p),
        (j as int) < combo_count(*p),
    ensures
        r == combo_allowed_in(*p, i as int, j as int),
{
    match al_find(&p.schedule_limit, &p.schedule[i].0) {
        None => {
            assert forall|l: int|
                0 <= l < p.schedule_limit@.len() && (#[trigger] p.schedule_limit@[l]).0@
                    == seg_name(*p, i as int) implies combo_within(
                p.overlap@[j as int].combo@,
                p.schedule_limit@[l].1@,
            ) by {
                assert(al_contains(p.schedule_limit@, seg_name(*p, i as int)));
            };
            true
        },
        Some(li) => {
            let r = check_combo_within(&p.overlap[j].combo, &p.schedule_limit[li].1);
            proof {
                lemma_al_found(p.schedule_limit@, p.schedule@[i as int].0@, li as int);
                if r {
                    assert forall|l: int|
                        0 <= l < p.schedule_limit@.len() && (#[trigger] p.schedule_limit@[l]).0@
                            == seg_name(*p, i as int) implies combo_within(
                        p.overlap@[j as int].combo@,
                        p.schedule_limit@[l].1@,
                    ) by {
                        lemma_al_found(p.schedule_limit@, p.schedule@[i as int].0@, l);
                    };
                }
            }
            r
        },
    }
}

/// Whether the pair `(i, j)` is eligible, executable.
fn pair_eligible(p: &Person, i: usize, j: usize) -> (r: bool)
    requires
        person_wf(*p),
        (i as int) < seg_count(*p),
        (j as int) < combo_count(*p),
    ensures
        r == eligible_pair(*p, i as int, j as int),
{
    if !combo_allowed_exec(p, i, j) {
        return false;
    }
    if p.schedule[i].1 <= 0 {
        return false;
    }
    if p.overlap[j].bonus <= 0 {
        return false;
    }
    let combo = &p.overlap[j].combo;
    let n: usize = combo.len();
    let mut q: usize = 0;
    while q < n
        invariant
            person_wf(*p),
            (j as int) < combo_count(*p),
            combo == &p.overlap[j as int].combo,
            n == combo@.len(),
            q <= n,
            forall|x: int| 0 <= x < q ==> #[trigger] partner_open(*p, combo@[x]@),
        decreases n - q,
    {
        let sk = &combo[q];
        match al_find(&p.target, sk) {
            None => {},
            Some(ti) => {
                proof {
                    lemma_al_found(p.target@, combo@[q as int]@, ti as int);
                }
                match al_find(&p.safety_limit, sk) {
                    None => {},
                    Some(se) => {
                        proof {
                            lemma_al_found(p.safety_limit@, combo@[q as int]@, se as int);
                        }
                        if p.safety_limit[se].1 <= 0 {
                            assert(!partner_open(*p, combo@[q as int]@));
                            return false;
                        }
                    },
                }
            },
        }
        assert(partner_open(*p, combo@[q as int]@));
        q = q + 1;
    }
    true
}

/// Whether target `t`'s skill has any eligible pair, executable.
fn can_train_exec(p: &Person, t: usize) -> (r: bool)
    requires
        person_wf(*p),
        (t as int) < target_count(*p),
    ensures
        r == can_train(*p, target_skill(*p, t as int)),
{
    let s_count: usize = p.schedule.len();
    let c_count: usize = p.overlap.len();
    let mut i: usize = 0;
    while i < s_count
        invariant
            person_wf(*p),
            (t as int) < target_count(*p),
            s_count == p.schedule@.len(),
            c_count == p.overlap@.len(),
            i <= s_count,
            forall|a: int, b: int|
                0 <= a < i && 0 <= b < c_count ==> !(combo_has_skill(
                    *p,
                    b,
                    target_skill(*p, t as int),
                ) && #[trigger] eligible_pair(*p, a, b)),
        decreases s_count - i,
    {
        let mut j: usize = 0;
        while j < c_count
            invariant
                person_wf(*p),
                (t as int) < target_count(*p),
                (i as int) < s_count as int,
                s_count == p.schedule@.len(),
                c_count == p.overlap@.len(),
                j <= c_count,
                forall|a: int, b: int|
                    0 <= a < i && 0 <= b < c_count ==> !(combo_has_skill(
                        *p,
                        b,
                        target_skill(*p, t as int),
                    ) && #[trigger] eligible_pair(*p, a, b)),
                forall|b: int| 0 <= b < j ==> !(combo_has_skill(*p, b, target_skill(*p, t as int))
                    && #[trigger] eligible_pair(*p, i as int, b)),
            decreases c_count - j,
        {
            if names_find(&p.overlap[j].combo, &p.target[t].0) {
                if pair_eligible(p, i, j) {
                    return true;
                }
            }
            j = j + 1;
        }
        i = i + 1;
    }
    false
}

// ---------------------------------------------------------------------
// Completing a solver result
// ---------------------------------------------------------------------

/// Turns the solver's per-(segment, combo) hours into a full assignment:
/// the aggregate variables are recomputed exactly from the pair variables,
/// and realized output is rounded down to the fixed-point grid, so that
/// the aggregation constraint families hold by construction.
pub fn complete_assignment(p: &Person, combo_time: &Vec<i64>) -> (asg: Vec<i64>)
    requires
        person_wf(*p),
        combo_time@.len() == combo_area(*p),
        forall|idx: int| 0 <= idx < combo_time@.len() ==> 0 <= #[trigger] combo_time@[idx]
            <= MAX_TIME,
    ensures
        asg@.len() == var_count(*p),
        forall|idx: int| 0 <= idx < combo_area(*p) ==> #[trigger] asg@[idx] == combo_time@[idx],
        nonnegative(*p, asg@),
        totals_consistent(*p, asg@),
        roi_consistent(*p, asg@),
{
    proof {
        lemma_counts(*p);
    }
    let area: usize = combo_time.len();
    let c_count: usize = p.overlap.len();
    let t_count: usize = p.target.len();
    let s_count: usize = p.schedule.len();
    let mut asg: Vec<i64> = Vec::new();

    // Pair variables: copied through.
    let mut idx: usize = 0;
    while idx < area
        invariant
            asg@.len() == idx,
            idx <= area,
            area == combo_time@.len(),
            forall|q: int| 0 <= q < idx ==> #[trigger] asg@[q] == combo_time@[q],
        decreases area - idx,
    {
        asg.push(combo_time[idx]);
        idx = idx + 1;
    }

    // Raw hours per target skill.
    let mut t: usize = 0;
    while t < t_count
        invariant
            person_wf(*p),
            area as int == combo_area(*p),
            c_count == p.overlap@.len(),
            t_count == p.target@.len(),
            area == combo_time@.len(),
            forall|q: int| 0 <= q < combo_time@.len() ==> 0 <= #[trigger] combo_time@[q]
                <= MAX_TIME,
            asg@.len() == area + t,
            t <= t_count,
            forall|q: int| 0 <= q < area ==> #[trigger] asg@[q] == combo_time@[q],
            forall|q: int| 0 <= q < t ==> #[trigger] asg@[area + q] as int == invested_in_skill(
                *p,
                combo_time@,
                target_skill(*p, q),
            ) && asg@[area + q] >= 0,
        decreases t_count - t,
    {
        proof {
            lemma_counts(*p);
        }
        let ghost k = target_skill(*p, t as int);
        let mut acc: i64 = 0;
        let mut x: usize = 0;
        while x < area
            invariant
                person_wf(*p),
                (t as int) < target_count(*p),
                area as int == combo_area(*p),
                c_count == p.overlap@.len(),
                area == combo_time@.len(),
                forall|q: int| 0 <= q < combo_time@.len() ==> 0 <= #[trigger] combo_time@[q]
                    <= MAX_TIME,
                x <= area,
                k == target_skill(*p, t as int),
                0 <= acc <= (x as int) * MAX_TIME,
                acc as int == sum_of(
                    x as nat,
                    |q: int|
                        if combo_has_skill(*p, q % combo_count(*p), k) {
                            combo_time@[q] as int
                        } else {
                            0
                        },
                ),
            decreases area - x,
        {
            proof {
                lemma_counts(*p);
                assert(combo_count(*p) > 0) by (nonlinear_arith)
                    requires
                        combo_area(*p) == seg_count(*p) * combo_count(*p),
                        combo_area(*p) > x as int >= 0,
                        combo_count(*p) >= 0,
                        seg_count(*p) >= 0,
                ;
            }
            let j: usize = x % c_count;
            if names_find(&p.overlap[j].combo, &p.target[t].0) {
                acc = acc + combo_time[x];
            }
            x = x + 1;
        }
        asg.push(acc);
        t = t + 1;
    }

    // Hours per segment, weighted by combo size.
    let mut i: usize = 0;
    while i < s_count
        invariant
            person_wf(*p),
            area as int == combo_area(*p),
            c_count == p.overlap@.len(),
            t_count == p.target@.len(),
            s_count == p.schedule@.len(),
            area == combo_time@.len(),
            forall|q: int| 0 <= q < combo_time@.len() ==> 0 <= #[trigger] combo_time@[q]
                <= MAX_TIME,
            asg@.len() == area + t_count + i,
            i <= s_count,
            forall|q: int| 0 <= q < area ==> #[trigger] asg@[q] == combo_time@[q],
            forall|q: int| 0 <= q < t_count ==> #[trigger] asg@[area + q] as int
                == invested_in_skill(*p, combo_time@, target_skill(*p, q)) && asg@[area + q] >= 0,
            forall|q: int| 0 <= q < i ==> #[trigger] asg@[area + t_count + q] as int
                == invested_in_segment(*p, combo_time@, q) && asg@[area + t_count + q] >= 0,
        decreases s_count - i,
    {
        proof {
            lemma_counts(*p);
        }
        let mut acc: i64 = 0;
        let mut j: usize = 0;
        while j < c_count
            invariant
                person_wf(*p),
                (i as int) < seg_count(*p),
                area as int == combo_area(*p),
                c_count == p.overlap@.len(),
                area == combo_time@.len(),
                forall|q: int| 0 <= q < combo_time@.len() ==> 0 <= #[trigger] combo_time@[q]
                    <= MAX_TIME,
                j <= c_count,
                0 <= acc <= (j as int) * 1_000_000_000_000,
                acc as int == sum_of(
                    j as nat,
                    |jj: int| combo_len(*p, jj) * (combo_time@[combo_var(*p, i as int, jj)] as int),
                ),
            decreases c_count - j,
        {
            proof {
                lemma_counts(*p);
                lemma_combo_var_in_area(*p, i as int, j as int);
            }
            let len_j: i64 = p.overlap[j].combo.len() as i64;
            let base: usize = i * c_count;
            proof {
                assert(base + j == combo_var(*p, i as int, j as int));
            }
            let val: i64 = combo_time[base + j];
            proof {
                assert(0 <= len_j * val <= 1_000_000_000_000) by (nonlinear_arith)
                    requires
                        0 <= len_j <= 1000,
                        0 <= val <= MAX_TIME,
                        MAX_TIME == 1_000_000_000,
                ;
            }
            acc = acc + len_j * val;
            j = j + 1;
        }
        asg.push(acc);
        i = i + 1;
    }

    // Realized output per target skill, rounded down.
    let mut t2: usize = 0;
    while t2 < t_count
        invariant
            person_wf(*p),
            area as int == combo_area(*p),
            c_count == p.overlap@.len(),
            t_count == p.target@.len(),
            s_count == p.schedule@.len(),
            area == combo_time@.len(),
            forall|q: int| 0 <= q < combo_time@.len() ==> 0 <= #[trigger] combo_time@[q]
                <= MAX_TIME,
            asg@.len() == area + t_count + s_count + t2,
            t2 <= t_count,
            forall|q: int| 0 <= q < area ==> #[trigger] asg@[q] == combo_time@[q],
            forall|q: int| 0 <= q < t_count ==> #[trigger] asg@[area + q] as int
                == invested_in_skill(*p, combo_time@, target_skill(*p, q)) && asg@[area + q] >= 0,
            forall|q: int| 0 <= q < s_count ==> #[trigger] asg@[area + t_count + q] as int
                == invested_in_segment(*p, combo_time@, q) && asg@[area + t_count + q] >= 0,
            forall|q: int| 0 <= q < t2 ==> (SCALE as int) * (#[trigger] asg@[area + t_count
                + s_count + q] as int) <= weighted_roi(*p, combo_time@, target_skill(*p, q))
                && weighted_roi(*p, combo_time@, target_skill(*p, q)) < (SCALE as int) * (asg@[area
                + t_count + s_count + q] as int) + (SCALE as int) && asg@[area + t_count + s_count
                + q] >= 0,
        decreases t_count - t2,
    {
        proof {
            lemma_counts(*p);
        }
        let ghost k = target_skill(*p, t2 as int);
        let mut acc: i128 = 0;
        let mut x: usize = 0;
        while x < area
            invariant
                person_wf(*p),
                (t2 as int) < target_count(*p),
                area as int == combo_area(*p),
                c_count == p.overlap@.len(),
                area == combo_time@.len(),
                forall|q: int| 0 <= q < combo_time@.len() ==> 0 <= #[trigger] combo_time@[q]
                    <= MAX_TIME,
                x <= area,
                k == target_skill(*p, t2 as int),
                0 <= acc <= (x as int) * 1_000_000_000_000_000,
                acc as int == sum_of(
                    x as nat,
                    |q: int|
                        if combo_has_skill(*p, q % combo_count(*p), k) {
                            combo_bonus(*p, q % combo_count(*p)) * (combo_time@[q] as int)
                        } else {
                            0
                        },
                ),
            decreases area - x,
        {
            proof {
                lemma_counts(*p);
                assert(combo_count(*p) > 0) by (nonlinear_arith)
                    requires
                        combo_area(*p) == seg_count(*p) * combo_count(*p),
                        combo_area(*p) > x as int >= 0,
                        combo_count(*p) >= 0,
                        seg_count(*p) >= 0,
                ;
            }
            let j: usize = x % c_count;
            if names_find(&p.overlap[j].combo, &p.target[t2].0) {
                let bonus: i64 = p.overlap[j].bonus;
                let val: i64 = combo_time[x];
                proof {
                    assert(0 <= (bonus as int) * (val as int) <= 1_000_000_000_000_000)
                        by (nonlinear_arith)
                        requires
                            0 <= bonus <= MAX_BONUS,
                            0 <= val <= MAX_TIME,
                            MAX_BONUS == 1_000_000,
                            MAX_TIME == 1_000_000_000,
                    ;
                    assert((x as int + 1) * 1_000_000_000_000_000 == (x as int) * 1_000_000_000_000_000
                        + 1_000_000_000_000_000) by (nonlinear_arith);
                    assert((x as int) * 1_000_000_000_000_000 <= 1_000_000 * 1_000_000_000_000_000)
                        by (nonlinear_arith)
                        requires
                            0 <= x as int <= 1_000_000,
                    ;
                }
                acc = acc + (bonus as i128) * (val as i128);
            } else {
                proof {
                    assert((x as int + 1) * 1_000_000_000_000_000 == (x as int) * 1_000_000_000_000_000
                        + 1_000_000_000_000_000) by (nonlinear_arith);
                }
            }
            x = x + 1;
        }
        proof {
            assert((area as int) * 1_000_000_000_000_000 <= 1_000_000 * 1_000_000_000_000_000)
                by (nonlinear_arith)
                requires
                    0 <= area as int <= 1_000_000,
            ;
        }
        let roi_wide: i128 = acc / 1000;
        let roi: i64 = roi_wide as i64;
        asg.push(roi);
        t2 = t2 + 1;
    }

    // Tie the aggregates computed over the pair values to the same sums
    // over the finished assignment, whose pair prefix is identical.
    proof {
        lemma_area_nonneg(*p);
        assert forall|v: int| 0 <= v < var_count(*p) implies asg@[v] >= 0 by {
            let area_i = combo_area(*p);
            let tc = target_count(*p);
            let sc = seg_count(*p);
            if v < area_i {
                assert(asg@[v] == combo_time@[v]);
            } else if v < area_i + tc {
                assert(asg@[area_i + (v - area_i)] >= 0);
            } else if v < area_i + tc + sc {
                assert(asg@[area_i + tc + (v - area_i - tc)] >= 0);
            } else {
                assert(asg@[area_i + tc + sc + (v - area_i - tc - sc)] >= 0);
            }
        };
        assert forall|t3: int| 0 <= t3 < target_count(*p) implies invested_in_skill(
            *p,
            asg@,
            target_skill(*p, t3),
        ) == invested_in_skill(*p, combo_time@, target_skill(*p, t3)) by {
            let k = target_skill(*p, t3);
            lemma_sum_of_ext(
                combo_area(*p) as nat,
                |q: int|
                    if combo_has_skill(*p, q % combo_count(*p), k) {
                        asg@[q] as int
                    } else {
                        0
                    },
                |q: int|
                    if combo_has_skill(*p, q % combo_count(*p), k) {
                        combo_time@[q] as int
                    } else {
                        0
                    },
            );
        };
        assert forall|i2: int| 0 <= i2 < seg_count(*p) implies invested_in_segment(
            *p,
            asg@,
            i2,
        ) == invested_in_segment(*p, combo_time@, i2) by {
            assert forall|jj: int| 0 <= jj < combo_count(*p) implies combo_len(*p, jj) * (
            asg@[combo_var(*p, i2, jj)] as int) == combo_len(*p, jj) * (combo_time@[combo_var(
                *p,
                i2,
                jj,
            )] as int) by {
                lemma_combo_var_in_area(*p, i2, jj);
            };
            lemma_sum_of_ext(
                combo_count(*p) as nat,
                |jj: int| combo_len(*p, jj) * (asg@[combo_var(*p, i2, jj)] as int),
                |jj: int| combo_len(*p, jj) * (combo_time@[combo_var(*p, i2, jj)] as int),
            );
        };
        assert forall|t3: int| 0 <= t3 < target_count(*p) implies weighted_roi(
            *p,
            asg@,
            target_skill(*p, t3),
        ) == weighted_roi(*p, combo_time@, target_skill(*p, t3)) by {
            let k = target_skill(*p, t3);
            lemma_sum_of_ext(
                combo_area(*p) as nat,
                |q: int|
                    if combo_has_skill(*p, q % combo_count(*p), k) {
                        combo_bonus(*p, q % combo_count(*p)) * (asg@[q] as int)
                    } else {
                        0
                    },
                |q: int|
                    if combo_has_skill(*p, q % combo_count(*p), k) {
                        combo_bonus(*p, q % combo_count(*p)) * (combo_time@[q] as int)
                    } else {
                        0
                    },
            );
        };
    }
    asg
}

// ---------------------------------------------------------------------
// One person's day
// ---------------------------------------------------------------------

/// What one solved day yields for one person: the realized output per
/// target skill, their plain sum, and the scheduled time left unused.
#[derive(Clone, Debug, PartialEq)]
pub struct DayResult {
    pub roi: Vec<(String, i64)>,
    pub total_roi: i64,
    pub wasted: i64,
}

/// The plain sum of the realized-output variables.
pub open spec fn roi_total(p: Person, asg: Seq<i64>) -> int {
    sum_of(target_count(p) as nat, |t: int| asg[roi_var(p, t)] as int)
}

/// Scheduled time left unused, summed over segments.
pub open spec fn wasted_total(p: Person, asg: Seq<i64>) -> int {
    sum_of(
        seg_count(p) as nat,
        |i: int|
            if seg_duration(p, i) > asg[seg_var(p, i)] as int {
                seg_duration(p, i) - asg[seg_var(p, i)] as int
            } else {
                0
            },
    )
}

/// Some target skill has no eligible pair at all, so no allocation can
/// make progress on it.
pub open spec fn some_target_stuck(p: Person) -> bool {
    exists|t: int| 0 <= t < target_count(p) && !#[trigger] can_train(p, target_skill(p, t))
}

/// Validates a solved day for one person and extracts its results.
///
/// Fails with `ModelInfeasible` exactly when some target skill has no
/// eligible (segment, combo) pair, and otherwise with `SolverFailure`
/// exactly when the assignment is not a feasible allocation.  On success
/// the assignment is feasible and the result lists, per target in order,
/// the skill and its realized output, beside the output total and the
/// wasted-time diagnostic.
pub fn simulate_person(p: &Person, asg: &Vec<i64>) -> (r: Result<DayResult, Error>)
    requires
        person_wf(*p),
    ensures
        (r == Err::<DayResult, Error>(Error::ModelInfeasible)) <==> some_target_stuck(*p),
        !some_target_stuck(*p) ==> ((r == Err::<DayResult, Error>(Error::SolverFailure))
            <==> !feasible_allocation(*p, asg@)),
        (r matches Ok(_)) <==> (!some_target_stuck(*p) && feasible_allocation(*p, asg@)),
        r matches Ok(d) ==> {
            &&& feasible_allocation(*p, asg@)
            &&& d.roi@.len() == target_count(*p)
            &&& forall|t: int| 0 <= t < target_count(*p) ==> (#[trigger] d.roi@[t]).0@
                == target_skill(*p, t) && d.roi@[t].1 == asg@[roi_var(*p, t)]
            &&& d.total_roi as int == roi_total(*p, asg@)
            &&& d.wasted as int == wasted_total(*p, asg@)
        },
{
    let t_count: usize = p.target.len();
    let s_count: usize = p.schedule.len();

    // No allocation can help a target skill with no eligible pair.
    let mut t: usize = 0;
    while t < t_count
        invariant
            person_wf(*p),
            t_count == p.target@.len(),
            t <= t_count,
            forall|q: int| 0 <= q < t ==> #[trigger] can_train(*p, target_skill(*p, q)),
        decreases t_count - t,
    {
        if !can_train_exec(p, t) {
            return Err(Error::ModelInfeasible);
        }
        t = t + 1;
    }
    assert(!some_target_stuck(*p));

    // The assignment must satisfy the built model exactly.
    let m = build_model(p);
    if !check_solution(&m, asg) {
        proof {
            if feasible_allocation(*p, asg@) {
                lemma_model_complete(*p, m, asg@);
            }
        }
        return Err(Error::SolverFailure);
    }
    proof {
        lemma_model_sound(*p, m, asg@);
        lemma_counts(*p);
    }

    // Realized output per target skill, and its total.
    let area: usize = p.schedule.len() * p.overlap.len();
    let mut roi: Vec<(String, i64)> = Vec::new();
    let mut total_roi: i64 = 0;
    let mut t2: usize = 0;
    while t2 < t_count
        invariant
            person_wf(*p),
            feasible_allocation(*p, asg@),
            t_count == p.target@.len(),
            s_count == p.schedule@.len(),
            area as int == combo_area(*p),
            asg@.len() == var_count(*p),
            t2 <= t_count,
            roi@.len() == t2,
            forall|q: int| 0 <= q < t2 ==> (#[trigger] roi@[q]).0@ == target_skill(*p, q)
                && roi@[q].1 == asg@[roi_var(*p, q)],
            0 <= total_roi <= (t2 as int) * MAX_NEED,
            total_roi as int == sum_of(t2 as nat, |q: int| asg@[roi_var(*p, q)] as int),
        decreases t_count - t2,
    {
        proof {
            lemma_counts(*p);
        }
        let rv: usize = area + t_count + s_count + t2;
        let value: i64 = asg[rv];
        proof {
            assert(rv as int == roi_var(*p, t2 as int));
            assert(asg@[rv as int] as int <= target_need(*p, t2 as int));
            assert(asg@[rv as int] >= 0);
        }
        roi.push((p.target[t2].0.clone(), value));
        total_roi = total_roi + value;
        t2 = t2 + 1;
    }

    // Wasted time across segments.
    let mut wasted: i64 = 0;
    let mut i: usize = 0;
    while i < s_count
        invariant
            person_wf(*p),
            feasible_allocation(*p, asg@),
            s_count == p.schedule@.len(),
            t_count == p.target@.len(),
            area as int == combo_area(*p),
            asg@.len() == var_count(*p),
            i <= s_count,
            0 <= wasted <= (i as int) * MAX_TIME,
            wasted as int == sum_of(
                i as nat,
                |q: int|
                    if seg_duration(*p, q) > asg@[seg_var(*p, q)] as int {
                        seg_duration(*p, q) - asg@[seg_var(*p, q)] as int
                    } else {
                        0
                    },
            ),
        decreases s_count - i,
    {
        proof {
            lemma_counts(*p);
        }
        let sv: usize = area + t_count + i;
        let used: i64 = asg[sv];
        let limit: i64 = p.schedule[i].1;
        proof {
            assert(sv as int == seg_var(*p, i as int));
            assert(asg@[sv as int] >= 0);
        }
        if used < limit {
            wasted = wasted + (limit - used);
        }
        i = i + 1;
    }

    Ok(DayResult { roi, total_roi, wasted })
}

// ---------------------------------------------------------------------
// A stuck target cannot progress
// ---------------------------------------------------------------------

/// Law: a target skill with no eligible (segment, combo) pair realizes
/// zero output in every feasible allocation — the day cannot reduce its
/// remaining need, which is why such a state is surfaced as
/// `ModelInfeasible` instead of looping forever.
pub proof fn lemma_stuck_target_gets_nothing(p: Person, asg: Seq<i64>, t: int)
    requires
        person_wf(p),
        feasible_allocation(p, asg),
        0 <= t < target_count(p),
        !can_train(p, target_skill(p, t)),
    ensures
        asg[roi_var(p, t)] == 0,
{
    lemma_area_nonneg(p);
    let k = target_skill(p, t);
    let area = combo_area(p);
    let cc = combo_count(p);
    assert forall|idx: int|
        0 <= idx < area implies (
        if combo_has_skill(p, idx % cc, k) {
            combo_bonus(p, idx % cc) * (asg[idx] as int)
        } else {
            0
        }) == 0 by {
        assert(cc > 0) by (nonlinear_arith)
            requires
                area == seg_count(p) * cc,
                area > idx >= 0,
                cc >= 0,
                seg_count(p) >= 0,
        ;
        let i = idx / cc;
        let j = idx % cc;
        lemma_fundamental_div_mod(idx, cc);
        assert(idx == cc * (idx / cc) + idx % cc);
        assert(i * cc == cc * i) by (nonlinear_arith);
        assert(combo_var(p, i, j) == idx);
        assert(0 <= i < seg_count(p)) by (nonlinear_arith)
            requires
                idx == i * cc + j,
                0 <= idx < seg_count(p) * cc,
                0 <= j < cc,
                cc > 0,
        ;
        if combo_has_skill(p, j, k) {
            assert(!eligible_pair(p, i, j));
            if !combo_allowed_in(p, i, j) {
                assert(asg[combo_var(p, i, j)] == 0);
                assert(combo_bonus(p, j) * (asg[idx] as int) == 0) by (nonlinear_arith)
                    requires
                        asg[idx] == 0,
                ;
            } else if seg_duration(p, i) <= 0 {
                assert(asg[seg_var(p, i)] as int == invested_in_segment(p, asg, i));
                assert(asg[seg_var(p, i)] as int <= seg_duration(p, i));
                assert(asg[seg_var(p, i)] >= 0);
                assert forall|jj: int|
                    0 <= jj < cc implies (combo_len(p, jj) * (asg[combo_var(p, i, jj)] as int))
                    >= 0 by {
                    lemma_combo_var_in_area(p, i, jj);
                    assert(asg[combo_var(p, i, jj)] >= 0);
                    assert(combo_len(p, jj) * (asg[combo_var(p, i, jj)] as int) >= 0)
                        by (nonlinear_arith)
                        requires
                            combo_len(p, jj) >= 0,
                            asg[combo_var(p, i, jj)] >= 0,
                    ;
                };
                let f_seg = |jj: int| combo_len(p, jj) * (asg[combo_var(p, i, jj)] as int);
                lemma_sum_of_zero_each(cc as nat, f_seg);
                assert(f_seg(j) == 0);
                assert(combo_len(p, j) * (asg[combo_var(p, i, j)] as int) == 0);
                assert(asg[idx] == 0) by (nonlinear_arith)
                    requires
                        combo_len(p, j) * (asg[combo_var(p, i, j)] as int) == 0,
                        combo_len(p, j) >= 1,
                        combo_var(p, i, j) == idx,
                        asg[idx] >= 0,
                ;
                assert(combo_bonus(p, j) * (asg[idx] as int) == 0) by (nonlinear_arith)
                    requires
                        asg[idx] == 0,
                ;
            } else if combo_bonus(p, j) <= 0 {
                assert(combo_bonus(p, j) == 0);
                assert(combo_bonus(p, j) * (asg[idx] as int) == 0) by (nonlinear_arith)
                    requires
                        combo_bonus(p, j) == 0,
                ;
            } else {
                let q = choose|q: int|
                    0 <= q < combo_len(p, j) && !partner_open(p, p.overlap@[j].combo@[q]@);
                let sk = p.overlap@[j].combo@[q]@;
                assert(al_contains(p.target@, sk) && al_contains(p.safety_limit@, sk)
                    && al_value(p.safety_limit@, sk) as int <= 0);
                let tq = al_index(p.target@, sk);
                let e = al_index(p.safety_limit@, sk);
                assert(0 <= tq < target_count(p) && p.target@[tq].0@ == sk);
                assert(0 <= e < safety_count(p) && p.safety_limit@[e].0@ == sk);
                assert(p.safety_limit@[e].1 == al_value(p.safety_limit@, sk));
                assert(asg[skill_var(p, tq)] as int <= p.safety_limit@[e].1 as int);
                assert(asg[skill_var(p, tq)] >= 0);
                assert(asg[skill_var(p, tq)] as int == invested_in_skill(p, asg, sk));
                assert forall|x: int|
                    0 <= x < area implies (
                    if combo_has_skill(p, x % cc, sk) {
                        asg[x] as int
                    } else {
                        0
                    }) >= 0 by {
                    assert(asg[x] >= 0);
                };
                let f_sk = |x: int|
                    if combo_has_skill(p, x % cc, sk) {
                        asg[x] as int
                    } else {
                        0
                    };
                lemma_sum_of_zero_each(area as nat, f_sk);
                assert(combo_has_skill(p, j, sk));
                assert(f_sk(idx) == 0);
                assert(asg[idx] == 0);
                assert(combo_bonus(p, j) * (asg[idx] as int) == 0) by (nonlinear_arith)
                    requires
                        asg[idx] == 0,
                ;
            }
        }
    };
    assert(weighted_roi(p, asg, k) == 0) by {
        lemma_sum_of_zero(
            area as nat,
            |idx: int|
                if combo_has_skill(p, idx % cc, k) {
                    combo_bonus(p, idx % cc) * (asg[idx] as int)
                } else {
                    0
                },
        );
    };
    assert((SCALE as int) * (asg[roi_var(p, t)] as int) <= 0);
    assert(asg[roi_var(p, t)] >= 0);
    assert((SCALE as int) * (asg[roi_var(p, t)] as int) >= 0) by (nonlinear_arith)
        requires
            asg[roi_var(p, t)] >= 0,
            SCALE as int > 0,
    ;
    assert(asg[roi_var(p, t)] as int == 0) by (nonlinear_arith)
        requires
            (SCALE as int) * (asg[roi_var(p, t)] as int) == 0,
            SCALE as int > 0,
    ;
}

// ---------------------------------------------------------------------
// Applying realized output to the targets
// ---------------------------------------------------------------------

/// The recorded rank for a skill: its entry in the rank list, or zero
/// when absent.
pub open spec fn rank_of(skills: Seq<(String, i64)>, k: Seq<char>) -> i64 {
    if al_contains(skills, k) {
        al_value(skills, k)
    } else {
        0
    }
}

/// The targets that survive a day's realized output, in order: each
/// target's remaining need drops by its realized output, and targets at
/// or below zero are retired.
pub open spec fn kept_targets(ts: Seq<(String, Target)>, roi: Seq<(String, i64)>) -> Seq<
    (String, Target),
>
    decreases ts.len(),
{
    if ts.len() == 0 {
        Seq::empty()
    } else {
        let prefix = kept_targets(ts.drop_last(), roi);
        let rem = ts.last().1.hours_needed - roi[ts.len() - 1].1;
        if rem > 0 {
            prefix.push(
                (
                    ts.last().0,
                    Target { target_ranks: ts.last().1.target_ranks, hours_needed: rem as i64 },
                ),
            )
        } else {
            prefix
        }
    }
}

/// The skills retired by a day's realized output, in order, each with the
/// rank recorded for it.
pub open spec fn retired_skills(
    skills: Seq<(String, i64)>,
    ts: Seq<(String, Target)>,
    roi: Seq<(String, i64)>,
) -> Seq<(String, i64)>
    decreases ts.len(),
{
    if ts.len() == 0 {
        Seq::empty()
    } else {
        let prefix = retired_skills(skills, ts.drop_last(), roi);
        let rem = ts.last().1.hours_needed - roi[ts.len() - 1].1;
        if rem > 0 {
            prefix
        } else {
            prefix.push((ts.last().0, rank_of(skills, ts.last().0@)))
        }
    }
}

/// Shape of the surviving target list: no longer than before, keys still
/// distinct, and every entry is an old target with its need reduced by
/// exactly its realized output, still positive.
pub proof fn lemma_kept_targets_props(ts: Seq<(String, Target)>, roi: Seq<(String, i64)>)
    requires
        al_distinct(ts),
        forall|t: int| 0 <= t < ts.len() ==> (#[trigger] ts[t]).1.hours_needed >= 0,
        forall|t: int| 0 <= t < ts.len() ==> (#[trigger] roi[t]).1 >= 0,
    ensures
        kept_targets(ts, roi).len() <= ts.len(),
        al_distinct(kept_targets(ts, roi)),
        forall|x: int| 0 <= x < kept_targets(ts, roi).len() ==> exists|t: int|
            0 <= t < ts.len() && (#[trigger] kept_targets(ts, roi)[x]).0@ == ts[t].0@
                && kept_targets(ts, roi)[x].1.target_ranks == ts[t].1.target_ranks && kept_targets(
                ts,
                roi,
            )[x].1.hours_needed as int == ts[t].1.hours_needed - roi[t].1 && ts[t].1.hours_needed
                - roi[t].1 > 0,
    decreases ts.len(),
{
    if ts.len() > 0 {
        let pre = ts.drop_last();
        lemma_kept_targets_props(pre, roi);
        let ks = kept_targets(ts, roi);
        let kpre = kept_targets(pre, roi);
        let rem = ts.last().1.hours_needed - roi[ts.len() - 1].1;
        if rem > 0 {
            assert forall|x: int| 0 <= x < ks.len() implies exists|t: int|
                0 <= t < ts.len() && (#[trigger] ks[x]).0@ == ts[t].0@ && ks[x].1.target_ranks
                    == ts[t].1.target_ranks && ks[x].1.hours_needed as int == ts[t].1.hours_needed
                    - roi[t].1 && ts[t].1.hours_needed - roi[t].1 > 0 by {
                if x < kpre.len() {
                    assert(ks[x] == kpre[x]);
                    let t = choose|t: int|
                        0 <= t < pre.len() && kpre[x].0@ == pre[t].0@ && kpre[x].1.target_ranks
                            == pre[t].1.target_ranks && kpre[x].1.hours_needed as int
                            == pre[t].1.hours_needed - roi[t].1 && pre[t].1.hours_needed - roi[t].1
                            > 0;
                    assert(pre[t] == ts[t]);
                } else {
                    let t = ts.len() - 1;
                    assert(ks[x].0@ == ts[t].0@);
                }
            };
            assert forall|a: int, b: int| 0 <= a < b < ks.len() implies ks[a].0@ != ks[b].0@ by {
                if b < kpre.len() {
                    assert(ks[a] == kpre[a] && ks[b] == kpre[b]);
                } else {
                    assert(ks[b].0@ == ts[ts.len() - 1].0@);
                    assert(ks[a] == kpre[a]);
                    let t = choose|t: int|
                        0 <= t < pre.len() && kpre[a].0@ == pre[t].0@ && kpre[a].1.target_ranks
                            == pre[t].1.target_ranks && kpre[a].1.hours_needed as int
                            == pre[t].1.hours_needed - roi[t].1 && pre[t].1.hours_needed - roi[t].1
                            > 0;
                    assert(ts[t].0@ != ts[ts.len() - 1].0@);
                }
            };
        } else {
            assert forall|x: int| 0 <= x < ks.len() implies exists|t: int|
                0 <= t < ts.len() && (#[trigger] ks[x]).0@ == ts[t].0@ && ks[x].1.target_ranks
                    == ts[t].1.target_ranks && ks[x].1.hours_needed as int == ts[t].1.hours_needed
                    - roi[t].1 && ts[t].1.hours_needed - roi[t].1 > 0 by {
                assert(ks[x] == kpre[x]);
                let t = choose|t: int|
                    0 <= t < pre.len() && kpre[x].0@ == pre[t].0@ && kpre[x].1.target_ranks
                        == pre[t].1.target_ranks && kpre[x].1.hours_needed as int
                        == pre[t].1.hours_needed - roi[t].1 && pre[t].1.hours_needed - roi[t].1
                        > 0;
                assert(pre[t] == ts[t]);
            };
        }
    }
}

/// Law: after an update, each target's remaining need is exactly
/// `max(0, before - roi)` — it survives with the positive difference, and
/// is retired (absent) when the difference is zero or below.
pub proof fn lemma_update_need(ts: Seq<(String, Target)>, roi: Seq<(String, i64)>, t: int)
    requires
        al_distinct(ts),
        forall|q: int| 0 <= q < ts.len() ==> (#[trigger] ts[q]).1.hours_needed >= 0,
        forall|q: int| 0 <= q < ts.len() ==> (#[trigger] roi[q]).1 >= 0,
        0 <= t < ts.len(),
    ensures
        ts[t].1.hours_needed - roi[t].1 > 0 ==> al_contains(kept_targets(ts, roi), ts[t].0@)
            && al_value(kept_targets(ts, roi), ts[t].0@).hours_needed as int
            == ts[t].1.hours_needed - roi[t].1,
        ts[t].1.hours_needed - roi[t].1 <= 0 ==> !al_contains(kept_targets(ts, roi), ts[t].0@),
    decreases ts.len(),
{
    lemma_kept_targets_props(ts, roi);
    let ks = kept_targets(ts, roi);
    let pre = ts.drop_last();
    let kpre = kept_targets(pre, roi);
    let rem_last = ts.last().1.hours_needed - roi[ts.len() - 1].1;
    if t == ts.len() - 1 {
        if rem_last > 0 {
            assert(ks[ks.len() - 1].0@ == ts[t].0@);
            lemma_al_found(ks, ts[t].0@, ks.len() - 1);
        } else {
            assert(ks == kpre);
            lemma_kept_targets_props(pre, roi);
            if al_contains(kpre, ts[t].0@) {
                let x = al_index(kpre, ts[t].0@);
                assert(0 <= x < kpre.len() && kpre[x].0@ == ts[t].0@);
                let q = choose|q: int|
                    0 <= q < pre.len() && kpre[x].0@ == pre[q].0@ && kpre[x].1.target_ranks
                        == pre[q].1.target_ranks && kpre[x].1.hours_needed as int
                        == pre[q].1.hours_needed - roi[q].1 && pre[q].1.hours_needed - roi[q].1
                        > 0;
                assert(ts[q].0@ == ts[t].0@);
                assert(false);
            }
        }
    } else {
        lemma_update_need(pre, roi, t);
        lemma_kept_targets_props(pre, roi);
        if rem_last > 0 {
            if ts[t].1.hours_needed - roi[t].1 > 0 {
                let x = al_index(kpre, ts[t].0@);
                assert(0 <= x < kpre.len() && kpre[x].0@ == ts[t].0@);
                assert(ks[x] == kpre[x]);
                lemma_al_found(ks, ts[t].0@, x);
            } else {
                if al_contains(ks, ts[t].0@) {
                    let x = al_index(ks, ts[t].0@);
                    assert(0 <= x < ks.len() && ks[x].0@ == ts[t].0@);
                    if x < kpre.len() {
                        assert(ks[x] == kpre[x]);
                        assert(al_contains(kpre, ts[t].0@));
                        assert(false);
                    } else {
                        assert(ks[x].0@ == ts[ts.len() - 1].0@);
                        assert(ts[t].0@ != ts[ts.len() - 1].0@);
                        assert(false);
                    }
                }
            }
        } else {
            assert(ks == kpre);
        }
    }
}

/// Subtracts each target's realized output from its remaining need,
/// retires targets whose need is exhausted, and reports the retired
/// skills with their recorded ranks.
pub fn apply_training(p: &mut Person, roi: &Vec<(String, i64)>) -> (retired: Vec<(String, i64)>)
    requires
        person_wf(*old(p)),
        roi@.len() == old(p).target@.len(),
        forall|t: int| 0 <= t < roi@.len() ==> (#[trigger] roi@[t]).0@ == old(p).target@[t].0@
            && roi@[t].1 >= 0,
    ensures
        final(p).name == old(p).name,
        final(p).skills == old(p).skills,
        final(p).schedule == old(p).schedule,
        final(p).safety_limit == old(p).safety_limit,
        final(p).schedule_limit == old(p).schedule_limit,
        final(p).overlap == old(p).overlap,
        final(p).preference == old(p).preference,
        final(p).target@ == kept_targets(old(p).target@, roi@),
        retired@ == retired_skills(old(p).skills@, old(p).target@, roi@),
        person_wf(*final(p)),
{
    let t_count: usize = p.target.len();
    let mut kept: Vec<(String, Target)> = Vec::new();
    let mut retired: Vec<(String, i64)> = Vec::new();
    let mut t: usize = 0;
    proof {
        assert(p.target@.take(0) =~= Seq::<(String, Target)>::empty());
    }
    while t < t_count
        invariant
            person_wf(*p),
            *p == *old(p),
            t_count == p.target@.len(),
            roi@.len() == p.target@.len(),
            forall|q: int| 0 <= q < roi@.len() ==> (#[trigger] roi@[q]).0@ == p.target@[q].0@
                && roi@[q].1 >= 0,
            t <= t_count,
            kept@ == kept_targets(p.target@.take(t as int), roi@),
            retired@ == retired_skills(p.skills@, p.target@.take(t as int), roi@),
        decreases t_count - t,
    {
        let hn: i64 = p.target[t].1.hours_needed;
        let out: i64 = roi[t].1;
        let rem: i64 = hn - out;
        if rem > 0 {
            kept.push(
                (p.target[t].0.clone(), Target { target_ranks: p.target[t].1.target_ranks, hours_needed: rem }),
            );
        } else {
            let rank: i64 = match al_find(&p.skills, &p.target[t].0) {
                Some(si) => {
                    proof {
                        lemma_al_found(p.skills@, p.target@[t as int].0@, si as int);
                    }
                    p.skills[si].1
                },
                None => 0,
            };
            retired.push((p.target[t].0.clone(), rank));
        }
        proof {
            assert(p.target@.take(t as int + 1).drop_last() =~= p.target@.take(t as int));
            assert(p.target@.take(t as int + 1).last() == p.target@[t as int]);
        }
        t = t + 1;
    }
    proof {
        assert(p.target@.take(t_count as int) =~= p.target@);
        lemma_kept_targets_props(p.target@, roi@);
    }
    let retired_out = retired;
    p.target = kept;
    proof {
        let oldp = *old(p);
        assert forall|x: int| 0 <= x < final(p).target@.len() implies {
            &&& 0 <= #[trigger] final(p).target@[x].1.hours_needed <= MAX_NEED
            &&& 0 <= final(p).target@[x].1.target_ranks <= MAX_RANK
            &&& al_contains(final(p).skills@, final(p).target@[x].0@)
        } by {
            let t3 = choose|t3: int|
                0 <= t3 < oldp.target@.len() && final(p).target@[x].0@ == oldp.target@[t3].0@
                    && final(p).target@[x].1.target_ranks == oldp.target@[t3].1.target_ranks
                    && final(p).target@[x].1.hours_needed as int == oldp.target@[t3].1.hours_needed
                    - roi@[t3].1 && oldp.target@[t3].1.hours_needed - roi@[t3].1 > 0;
            assert(al_contains(oldp.skills@, oldp.target@[t3].0@));
        };
    }
    retired_out
}

} // verus!
