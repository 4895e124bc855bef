//! Allocation model builder: turns one person's state for one day into a
//! linear optimization model over four groups of decision variables, and
//! relates satisfying assignments of that model to the semantic feasibility
//! rules stated directly over the person.
//!
//! Variable layout, for `S` segments, `C` combos and `T` targets:
//! `[0, S*C)` hours per (segment, combo) pair, `[S*C, S*C+T)` raw hours per
//! target skill, `[S*C+T, S*C+T+S)` hours per segment, and
//! `[S*C+T+S, S*C+T+S+T)` realized output per target skill.

use vstd::prelude::*;
use vstd::arithmetic::mul::{lemma_mul_inequality, lemma_mul_upper_bound};
use vstd::arithmetic::div_mod::lemma_fundamental_div_mod;
use crate::types::{
    Person, al_contains, al_index, names_contain, names_find, person_wf, weight_of,
    lemma_al_found, al_find, SCALE, MAX_LIST, MAX_BONUS,
};
use crate::model::{
    CmpOp, Constraint, LinTerm, Model, single_term_con, empty_con, sum_of, term_val, eval_terms,
    constraint_ok, satisfies, constraint_wf, model_wf, MAX_VARS, MAX_COEF,
    lemma_eval_terms_is_sum, lemma_sum_of_ext, lemma_sum_of_neg, lemma_sum_of_shift,
    lemma_eval_single, lemma_eval_empty,
};

verus! {

// ---------------------------------------------------------------------
// Counts and variable numbering
// ---------------------------------------------------------------------

pub open spec fn seg_count(p: Person) -> int {
    p.schedule@.len() as int
}

pub open spec fn combo_count(p: Person) -> int {
    p.overlap@.len() as int
}

pub open spec fn target_count(p: Person) -> int {
    p.target@.len() as int
}

pub open spec fn safety_count(p: Person) -> int {
    p.safety_limit@.len() as int
}

pub open spec fn limit_count(p: Person) -> int {
    p.schedule_limit@.len() as int
}

/// Number of (segment, combo) pair variables.
pub open spec fn combo_area(p: Person) -> int {
    seg_count(p) * combo_count(p)
}

/// Variable holding the hours spent on combo `j` within segment `i`.
pub open spec fn combo_var(p: Person, i: int, j: int) -> int {
    i * combo_count(p) + j
}

/// Variable holding the raw hours invested in the skill of target `t`.
pub open spec fn skill_var(p: Person, t: int) -> int {
    combo_area(p) + t
}

/// Variable holding the hours used within segment `i`.
pub open spec fn seg_var(p: Person, i: int) -> int {
    combo_area(p) + target_count(p) + i
}

/// Variable holding the realized effective output for target `t`.
pub open spec fn roi_var(p: Person, t: int) -> int {
    combo_area(p) + target_count(p) + seg_count(p) + t
}

/// Total number of decision variables.
pub open spec fn var_count(p: Person) -> int {
    combo_area(p) + target_count(p) + seg_count(p) + target_count(p)
}

// Shorthands for fields of the person.

pub open spec fn seg_name(p: Person, i: int) -> Seq<char> {
    p.schedule@[i].0@
}

pub open spec fn seg_duration(p: Person, i: int) -> int {
    p.schedule@[i].1 as int
}

pub open spec fn combo_len(p: Person, j: int) -> int {
    p.overlap@[j].combo@.len() as int
}

pub open spec fn combo_bonus(p: Person, j: int) -> int {
    p.overlap@[j].bonus as int
}

pub open spec fn combo_has_skill(p: Person, j: int, k: Seq<char>) -> bool {
    names_contain(p.overlap@[j].combo@, k)
}

pub open spec fn target_skill(p: Person, t: int) -> Seq<char> {
    p.target@[t].0@
}

pub open spec fn target_need(p: Person, t: int) -> int {
    p.target@[t].1.hours_needed as int
}

/// All combo-pair variables come before the other variable groups, and
/// every group lies inside `[0, var_count)`.
pub proof fn lemma_combo_var_in_area(p: Person, i: int, j: int)
    requires
        0 <= i < seg_count(p),
        0 <= j < combo_count(p),
    ensures
        0 <= combo_var(p, i, j) < combo_area(p),
{
    lemma_mul_inequality(i + 1, seg_count(p), combo_count(p));
    assert((i + 1) * combo_count(p) == i * combo_count(p) + combo_count(p))
        by (nonlinear_arith);
    lemma_mul_upper_bound(0, i, 0, combo_count(p));
    assert(i * combo_count(p) >= 0) by (nonlinear_arith)
        requires
            i >= 0,
            combo_count(p) >= 0,
    ;
}

/// With a well-formed person, every variable group is bounded, so all
/// indices fit comfortably in `usize` and the model in `MAX_VARS`.
pub proof fn lemma_counts(p: Person)
    requires
        person_wf(p),
    ensures
        0 <= combo_area(p) <= 1_000_000,
        var_count(p) <= MAX_VARS,
        limit_count(p) * combo_count(p) <= 1_000_000,
{
    lemma_mul_upper_bound(seg_count(p), MAX_LIST as int, combo_count(p), MAX_LIST as int);
    lemma_mul_upper_bound(0, seg_count(p), 0, combo_count(p));
    assert(seg_count(p) * combo_count(p) >= 0) by (nonlinear_arith)
        requires
            seg_count(p) >= 0,
            combo_count(p) >= 0,
    ;
    lemma_mul_upper_bound(limit_count(p), MAX_LIST as int, combo_count(p), MAX_LIST as int);
    assert(limit_count(p) * combo_count(p) >= 0) by (nonlinear_arith)
        requires
            limit_count(p) >= 0,
            combo_count(p) >= 0,
    ;
}

// ---------------------------------------------------------------------
// Semantic feasibility
// ---------------------------------------------------------------------

/// Raw hours invested in skill `k`: the sum of every pair variable whose
/// combo contains `k`, counted in full for each constituent skill.
pub open spec fn invested_in_skill(p: Person, asg: Seq<i64>, k: Seq<char>) -> int {
    sum_of(
        combo_area(p) as nat,
        |idx: int|
            if combo_has_skill(p, idx % combo_count(p), k) {
                asg[idx] as int
            } else {
                0
            },
    )
}

/// Hours consumed from segment `i`: each pair variable weighted by its
/// combo's size, since a combo trains all its skills at once.
pub open spec fn invested_in_segment(p: Person, asg: Seq<i64>, i: int) -> int {
    sum_of(
        combo_count(p) as nat,
        |j: int| combo_len(p, j) * (asg[combo_var(p, i, j)] as int),
    )
}

/// Effective output for skill `k` scaled by `SCALE`: each pair variable
/// whose combo contains `k`, weighted by the combo's bonus.
pub open spec fn weighted_roi(p: Person, asg: Seq<i64>, k: Seq<char>) -> int {
    sum_of(
        combo_area(p) as nat,
        |idx: int|
            if combo_has_skill(p, idx % combo_count(p), k) {
                combo_bonus(p, idx % combo_count(p)) * (asg[idx] as int)
            } else {
                0
            },
    )
}

/// Every skill of the combo is named by the allowed list.
pub open spec fn combo_within(combo: Seq<String>, allowed: Seq<String>) -> bool {
    forall|q: int| 0 <= q < combo.len() ==> names_contain(allowed, #[trigger] combo[q]@)
}

/// Combo `j` may receive time in segment `i`: either the segment has no
/// schedule limit, or the combo's skills all lie in the allowed set.
pub open spec fn combo_allowed_in(p: Person, i: int, j: int) -> bool {
    forall|l: int|
        0 <= l < limit_count(p) && (#[trigger] p.schedule_limit@[l]).0@ == seg_name(p, i)
            ==> combo_within(p.overlap@[j].combo@, p.schedule_limit@[l].1@)
}

/// No decision variable is negative.
pub open spec fn nonnegative(p: Person, asg: Seq<i64>) -> bool {
    forall|v: int| 0 <= v < var_count(p) ==> asg[v] >= 0
}

/// No segment is used beyond its scheduled duration.
pub open spec fn respects_capacity(p: Person, asg: Seq<i64>) -> bool {
    forall|i: int| 0 <= i < seg_count(p) ==> asg[#[trigger] seg_var(p, i)] as int <= seg_duration(
        p,
        i,
    )
}

/// No target skill with a safety limit gets more raw hours than the limit.
pub open spec fn respects_safety(p: Person, asg: Seq<i64>) -> bool {
    forall|e: int, t: int|
        #![trigger p.safety_limit@[e], p.target@[t]]
        0 <= e < safety_count(p) && 0 <= t < target_count(p) && p.safety_limit@[e].0@
            == target_skill(p, t) ==> asg[skill_var(p, t)] as int <= p.safety_limit@[e].1 as int
}

/// A combo barred from a segment by a schedule limit receives no time
/// there.
pub open spec fn respects_limits(p: Person, asg: Seq<i64>) -> bool {
    forall|i: int, j: int|
        0 <= i < seg_count(p) && 0 <= j < combo_count(p) && !combo_allowed_in(p, i, j)
            ==> asg[#[trigger] combo_var(p, i, j)] == 0
}

/// The per-skill and per-segment totals are exactly the sums of the pair
/// variables they aggregate.
pub open spec fn totals_consistent(p: Person, asg: Seq<i64>) -> bool {
    &&& forall|t: int| 0 <= t < target_count(p) ==> asg[#[trigger] skill_var(p, t)] as int
        == invested_in_skill(p, asg, target_skill(p, t))
    &&& forall|i: int| 0 <= i < seg_count(p) ==> asg[#[trigger] seg_var(p, i)] as int
        == invested_in_segment(p, asg, i)
}

/// Each realized-output variable is the bonus-weighted sum over its
/// skill's combos, rounded down to the fixed-point grid.
pub open spec fn roi_consistent(p: Person, asg: Seq<i64>) -> bool {
    forall|t: int| 0 <= t < target_count(p) ==> (SCALE as int) * (asg[#[trigger] roi_var(p, t)] as int)
        <= weighted_roi(p, asg, target_skill(p, t)) && weighted_roi(p, asg, target_skill(p, t))
        < (SCALE as int) * (asg[roi_var(p, t)] as int) + (SCALE as int)
}

/// No target skill is trained beyond its remaining need.
pub open spec fn respects_need(p: Person, asg: Seq<i64>) -> bool {
    forall|t: int| 0 <= t < target_count(p) ==> asg[#[trigger] roi_var(p, t)] as int <= target_need(
        p,
        t,
    )
}

/// A feasible allocation for one person's day: the semantic counterpart of
/// the built model's constraint set.
pub open spec fn feasible_allocation(p: Person, asg: Seq<i64>) -> bool {
    &&& asg.len() == var_count(p)
    &&& nonnegative(p, asg)
    &&& respects_capacity(p, asg)
    &&& respects_safety(p, asg)
    &&& totals_consistent(p, asg)
    &&& roi_consistent(p, asg)
    &&& respects_limits(p, asg)
    &&& respects_need(p, asg)
}

// ---------------------------------------------------------------------
// Constraint families, structurally
// ---------------------------------------------------------------------

/// Raw-hours total for target `t`: the skill variable minus every pair
/// variable whose combo contains the skill equals zero.
pub open spec fn skill_sum_con(p: Person, t: int, c: Constraint) -> bool {
    &&& c.terms@.len() == 1 + combo_area(p)
    &&& c.terms@[0].var as int == skill_var(p, t)
    &&& c.terms@[0].coef == 1i64
    &&& forall|x: int| 1 <= x < c.terms@.len() ==> (#[trigger] c.terms@[x]).var as int == x - 1
        && c.terms@[x].coef as int == (
            if combo_has_skill(p, (x - 1) % combo_count(p), target_skill(p, t)) {
                -1
            } else {
                0
            }
        )
    &&& c.op == CmpOp::Eq
    &&& c.rhs == 0i64
}

/// Segment total for segment `i`: the segment variable minus the
/// size-weighted pair variables of that segment equals zero.
pub open spec fn seg_sum_con(p: Person, i: int, c: Constraint) -> bool {
    &&& c.terms@.len() == 1 + combo_count(p)
    &&& c.terms@[0].var as int == seg_var(p, i)
    &&& c.terms@[0].coef == 1i64
    &&& forall|x: int| 1 <= x < c.terms@.len() ==> (#[trigger] c.terms@[x]).var as int == combo_var(
        p,
        i,
        x - 1,
    ) && c.terms@[x].coef as int == -combo_len(p, x - 1)
    &&& c.op == CmpOp::Eq
    &&& c.rhs == 0i64
}

/// Lower half of the realized-output rounding for target `t`:
/// `SCALE * roi` does not exceed the bonus-weighted sum.
pub open spec fn roi_lo_con(p: Person, t: int, c: Constraint) -> bool {
    &&& c.terms@.len() == 1 + combo_area(p)
    &&& c.terms@[0].var as int == roi_var(p, t)
    &&& c.terms@[0].coef as int == SCALE as int
    &&& forall|x: int| 1 <= x < c.terms@.len() ==> (#[trigger] c.terms@[x]).var as int == x - 1
        && c.terms@[x].coef as int == (
            if combo_has_skill(p, (x - 1) % combo_count(p), target_skill(p, t)) {
                -combo_bonus(p, (x - 1) % combo_count(p))
            } else {
                0
            }
        )
    &&& c.op == CmpOp::Le
    &&& c.rhs == 0i64
}

/// Upper half of the realized-output rounding for target `t`: the
/// bonus-weighted sum exceeds `SCALE * roi` by less than `SCALE`.
pub open spec fn roi_hi_con(p: Person, t: int, c: Constraint) -> bool {
    &&& c.terms@.len() == 1 + combo_area(p)
    &&& c.terms@[0].var as int == roi_var(p, t)
    &&& c.terms@[0].coef as int == -(SCALE as int)
    &&& forall|x: int| 1 <= x < c.terms@.len() ==> (#[trigger] c.terms@[x]).var as int == x - 1
        && c.terms@[x].coef as int == (
            if combo_has_skill(p, (x - 1) % combo_count(p), target_skill(p, t)) {
                combo_bonus(p, (x - 1) % combo_count(p))
            } else {
                0
            }
        )
    &&& c.op == CmpOp::Le
    &&& c.rhs as int == SCALE - 1
}

/// Safety cap for entry `e`: a bound on the skill variable when the capped
/// skill is under target, and trivial otherwise.
pub open spec fn safety_con(p: Person, e: int, c: Constraint) -> bool {
    if al_contains(p.target@, p.safety_limit@[e].0@) {
        single_term_con(
            c,
            skill_var(p, al_index(p.target@, p.safety_limit@[e].0@)),
            1,
            CmpOp::Le,
            p.safety_limit@[e].1 as int,
        )
    } else {
        empty_con(c, CmpOp::Le, p.safety_limit@[e].1 as int)
    }
}

/// Schedule-limit constraint for limit entry `l` and combo `j`: pins the
/// pair variable to zero when the combo is barred from the limited
/// segment, and is trivial otherwise.
pub open spec fn limit_con(p: Person, l: int, j: int, c: Constraint) -> bool {
    if al_contains(p.schedule@, p.schedule_limit@[l].0@) && !combo_within(
        p.overlap@[j].combo@,
        p.schedule_limit@[l].1@,
    ) {
        single_term_con(
            c,
            combo_var(p, al_index(p.schedule@, p.schedule_limit@[l].0@), j),
            1,
            CmpOp::Eq,
            0,
        )
    } else {
        empty_con(c, CmpOp::Eq, 0)
    }
}

// Placement of each family inside a constraint list: the family's
// constraint for a given element sits at its expected slot after `base`.

/// The capacity constraint for segment `i` sits at `base + i`.
pub open spec fn cap_con_at(p: Person, cons: Seq<Constraint>, base: int, i: int) -> bool {
    single_term_con(cons[base + i], seg_var(p, i), 1, CmpOp::Le, seg_duration(p, i))
}

/// The safety constraint for entry `e` sits at `base + e`.
pub open spec fn safety_con_at(p: Person, cons: Seq<Constraint>, base: int, e: int) -> bool {
    safety_con(p, e, cons[base + e])
}

/// The raw-hours total constraint for target `t` sits at `base + t`.
pub open spec fn skill_sum_con_at(p: Person, cons: Seq<Constraint>, base: int, t: int) -> bool {
    skill_sum_con(p, t, cons[base + t])
}

/// The segment total constraint for segment `i` sits at `base + i`.
pub open spec fn seg_sum_con_at(p: Person, cons: Seq<Constraint>, base: int, i: int) -> bool {
    seg_sum_con(p, i, cons[base + i])
}

/// The two realized-output halves for target `t` sit at `base + 2t` and
/// `base + 2t + 1`.
pub open spec fn roi_con_at(p: Person, cons: Seq<Constraint>, base: int, t: int) -> bool {
    &&& roi_lo_con(p, t, cons[base + 2 * t])
    &&& roi_hi_con(p, t, cons[base + 2 * t + 1])
}

/// The schedule-limit constraint for `(l, j)` sits at
/// `base + l * combo_count + j`.
pub open spec fn limit_con_at(p: Person, cons: Seq<Constraint>, base: int, l: int, j: int) -> bool {
    limit_con(p, l, j, cons[base + l * combo_count(p) + j])
}

/// The need cap for target `t` sits at `base + t`.
pub open spec fn need_con_at(p: Person, cons: Seq<Constraint>, base: int, t: int) -> bool {
    single_term_con(cons[base + t], roi_var(p, t), 1, CmpOp::Le, target_need(p, t))
}

// Positions of the families inside the constraint list.

pub open spec fn off_capacity(p: Person) -> int {
    var_count(p)
}

pub open spec fn off_safety(p: Person) -> int {
    off_capacity(p) + seg_count(p)
}

pub open spec fn off_skill_sum(p: Person) -> int {
    off_safety(p) + safety_count(p)
}

pub open spec fn off_seg_sum(p: Person) -> int {
    off_skill_sum(p) + target_count(p)
}

pub open spec fn off_roi(p: Person) -> int {
    off_seg_sum(p) + seg_count(p)
}

pub open spec fn off_limits(p: Person) -> int {
    off_roi(p) + 2 * target_count(p)
}

pub open spec fn off_need(p: Person) -> int {
    off_limits(p) + limit_count(p) * combo_count(p)
}

pub open spec fn con_count(p: Person) -> int {
    off_need(p) + target_count(p)
}

/// The model is exactly the allocation model of person `p`: the declared
/// variables, the eight constraint families at their positions, and the
/// preference-weighted objective over the realized-output variables.
pub open spec fn model_matches(p: Person, m: Model) -> bool {
    &&& m.num_vars as int == var_count(p)
    &&& m.constraints@.len() == con_count(p)
    &&& forall|v: int| 0 <= v < var_count(p) ==> single_term_con(
        #[trigger] m.constraints@[v],
        v,
        1,
        CmpOp::Ge,
        0,
    )
    &&& forall|i: int| 0 <= i < seg_count(p) ==> #[trigger] cap_con_at(
        p,
        m.constraints@,
        off_capacity(p),
        i,
    )
    &&& forall|e: int| 0 <= e < safety_count(p) ==> #[trigger] safety_con_at(
        p,
        m.constraints@,
        off_safety(p),
        e,
    )
    &&& forall|t: int| 0 <= t < target_count(p) ==> #[trigger] skill_sum_con_at(
        p,
        m.constraints@,
        off_skill_sum(p),
        t,
    )
    &&& forall|i: int| 0 <= i < seg_count(p) ==> #[trigger] seg_sum_con_at(
        p,
        m.constraints@,
        off_seg_sum(p),
        i,
    )
    &&& forall|t: int| 0 <= t < target_count(p) ==> #[trigger] roi_con_at(
        p,
        m.constraints@,
        off_roi(p),
        t,
    )
    &&& forall|l: int, j: int|
        0 <= l < limit_count(p) && 0 <= j < combo_count(p) ==> #[trigger] limit_con_at(
            p,
            m.constraints@,
            off_limits(p),
            l,
            j,
        )
    &&& forall|t: int| 0 <= t < target_count(p) ==> #[trigger] need_con_at(
        p,
        m.constraints@,
        off_need(p),
        t,
    )
    &&& m.objective@.len() == target_count(p)
    &&& forall|t: int| 0 <= t < target_count(p) ==> (#[trigger] m.objective@[t]).var as int
        == roi_var(p, t) && m.objective@[t].coef as int == weight_of(p, target_skill(p, t))
}

/// Two constraints with the same one-term description are equal.
proof fn lemma_single_determined(c1: Constraint, c2: Constraint, v: int, coef: int, op: CmpOp, rhs: int)
    requires
        single_term_con(c1, v, coef, op, rhs),
        single_term_con(c2, v, coef, op, rhs),
    ensures
        c1.terms@ == c2.terms@,
        c1.op == c2.op,
        c1.rhs == c2.rhs,
{
    assert(c1.terms@[0] == c2.terms@[0]);
    assert(c1.terms@ =~= c2.terms@);
}

/// Law: the allocation model is determined by the person's state alone —
/// any two models matching the same person are identical in variables,
/// objective and constraints.  Handing the same state to the solver twice
/// therefore hands it the identical model.
pub proof fn lemma_model_determined(p: Person, m1: Model, m2: Model)
    requires
        person_wf(p),
        model_matches(p, m1),
        model_matches(p, m2),
    ensures
        m1.num_vars == m2.num_vars,
        m1.objective@ == m2.objective@,
        m1.constraints@.len() == m2.constraints@.len(),
        forall|k: int| 0 <= k < m1.constraints@.len() ==> (#[trigger] m1.constraints@[k]).terms@
            == m2.constraints@[k].terms@ && m1.constraints@[k].op == m2.constraints@[k].op
            && m1.constraints@[k].rhs == m2.constraints@[k].rhs,
{
    lemma_area_nonneg(p);
    assert forall|t: int| 0 <= t < target_count(p) implies #[trigger] m1.objective@[t]
        == m2.objective@[t] by {
        assert(m1.objective@[t].var as int == roi_var(p, t));
    };
    assert(m1.objective@ =~= m2.objective@);
    let cs1 = m1.constraints@;
    let cs2 = m2.constraints@;
    assert forall|k: int| 0 <= k < cs1.len() implies (#[trigger] cs1[k]).terms@ == cs2[k].terms@
        && cs1[k].op == cs2[k].op && cs1[k].rhs == cs2[k].rhs by {
        if k < off_capacity(p) {
            lemma_single_determined(cs1[k], cs2[k], k, 1, CmpOp::Ge, 0);
        } else if k < off_safety(p) {
            let i = k - off_capacity(p);
            assert(cap_con_at(p, cs1, off_capacity(p), i));
            assert(cap_con_at(p, cs2, off_capacity(p), i));
            lemma_single_determined(cs1[k], cs2[k], seg_var(p, i), 1, CmpOp::Le, seg_duration(p, i));
        } else if k < off_skill_sum(p) {
            let e = k - off_safety(p);
            assert(safety_con_at(p, cs1, off_safety(p), e));
            assert(safety_con_at(p, cs2, off_safety(p), e));
            let key = p.safety_limit@[e].0@;
            if al_contains(p.target@, key) {
                lemma_single_determined(
                    cs1[k],
                    cs2[k],
                    skill_var(p, al_index(p.target@, key)),
                    1,
                    CmpOp::Le,
                    p.safety_limit@[e].1 as int,
                );
            } else {
                assert(cs1[k].terms@ =~= cs2[k].terms@);
            }
        } else if k < off_seg_sum(p) {
            let t = k - off_skill_sum(p);
            assert(skill_sum_con_at(p, cs1, off_skill_sum(p), t));
            assert(skill_sum_con_at(p, cs2, off_skill_sum(p), t));
            assert forall|x: int| 0 <= x < cs1[k].terms@.len() implies #[trigger] cs1[k].terms@[x]
                == cs2[k].terms@[x] by {
                if x == 0 {
                    assert(cs1[k].terms@[0].var as int == skill_var(p, t));
                }
            };
            assert(cs1[k].terms@ =~= cs2[k].terms@);
        } else if k < off_roi(p) {
            let i = k - off_seg_sum(p);
            assert(seg_sum_con_at(p, cs1, off_seg_sum(p), i));
            assert(seg_sum_con_at(p, cs2, off_seg_sum(p), i));
            assert forall|x: int| 0 <= x < cs1[k].terms@.len() implies #[trigger] cs1[k].terms@[x]
                == cs2[k].terms@[x] by {
                if x == 0 {
                    assert(cs1[k].terms@[0].var as int == seg_var(p, i));
                }
            };
            assert(cs1[k].terms@ =~= cs2[k].terms@);
        } else if k < off_limits(p) {
            let d = k - off_roi(p);
            let t = d / 2;
            assert(roi_con_at(p, cs1, off_roi(p), t));
            assert(roi_con_at(p, cs2, off_roi(p), t));
            if d % 2 == 0 {
                assert(k == off_roi(p) + 2 * t);
                assert forall|x: int| 0 <= x < cs1[k].terms@.len() implies
                    #[trigger] cs1[k].terms@[x] == cs2[k].terms@[x] by {
                    if x == 0 {
                        assert(cs1[k].terms@[0].var as int == roi_var(p, t));
                    }
                };
            } else {
                assert(k == off_roi(p) + 2 * t + 1);
                assert forall|x: int| 0 <= x < cs1[k].terms@.len() implies
                    #[trigger] cs1[k].terms@[x] == cs2[k].terms@[x] by {
                    if x == 0 {
                        assert(cs1[k].terms@[0].var as int == roi_var(p, t));
                    }
                };
            }
            assert(cs1[k].terms@ =~= cs2[k].terms@);
        } else if k < off_need(p) {
            let d = k - off_limits(p);
            let cc = combo_count(p);
            assert(cc > 0) by (nonlinear_arith)
                requires
                    0 <= d < limit_count(p) * cc,
                    cc >= 0,
                    limit_count(p) >= 0,
            ;
            let l = d / cc;
            let j = d % cc;
            lemma_fundamental_div_mod(d, cc);
            assert(l * cc == cc * l) by (nonlinear_arith);
            assert(0 <= l < limit_count(p)) by (nonlinear_arith)
                requires
                    d == l * cc + j,
                    0 <= d < limit_count(p) * cc,
                    0 <= j < cc,
                    cc > 0,
            ;
            assert(limit_con_at(p, cs1, off_limits(p), l, j));
            assert(limit_con_at(p, cs2, off_limits(p), l, j));
            let key = p.schedule_limit@[l].0@;
            if al_contains(p.schedule@, key) && !combo_within(
                p.overlap@[j].combo@,
                p.schedule_limit@[l].1@,
            ) {
                lemma_single_determined(
                    cs1[k],
                    cs2[k],
                    combo_var(p, al_index(p.schedule@, key), j),
                    1,
                    CmpOp::Eq,
                    0,
                );
            } else {
                assert(cs1[k].terms@ =~= cs2[k].terms@);
            }
        } else {
            let t = k - off_need(p);
            assert(need_con_at(p, cs1, off_need(p), t));
            assert(need_con_at(p, cs2, off_need(p), t));
            lemma_single_determined(cs1[k], cs2[k], roi_var(p, t), 1, CmpOp::Le, target_need(p, t));
        }
    };
}

// ---------------------------------------------------------------------
// Laws of feasible allocations
// ---------------------------------------------------------------------

/// Law: in a feasible allocation, no segment is used beyond its scheduled
/// duration.
pub proof fn lemma_allocation_capacity(p: Person, asg: Seq<i64>, i: int)
    requires
        feasible_allocation(p, asg),
        0 <= i < seg_count(p),
    ensures
        asg[seg_var(p, i)] as int <= seg_duration(p, i),
{
}

/// Law: in a feasible allocation, a target skill with a safety limit gets
/// no more raw hours than the limit.
pub proof fn lemma_allocation_safety(p: Person, asg: Seq<i64>, e: int, t: int)
    requires
        feasible_allocation(p, asg),
        0 <= e < safety_count(p),
        0 <= t < target_count(p),
        p.safety_limit@[e].0@ == target_skill(p, t),
    ensures
        asg[skill_var(p, t)] as int <= p.safety_limit@[e].1 as int,
{
}

/// Law: in a feasible allocation, every combo receiving nonzero time in a
/// schedule-limited segment lies within the segment's allowed set.
pub proof fn lemma_allocation_limits(p: Person, asg: Seq<i64>, i: int, j: int)
    requires
        feasible_allocation(p, asg),
        0 <= i < seg_count(p),
        0 <= j < combo_count(p),
        asg[combo_var(p, i, j)] != 0,
    ensures
        combo_allowed_in(p, i, j),
{
}

/// Law: in a feasible allocation, no target skill realizes more output
/// than its remaining need.
pub proof fn lemma_allocation_need(p: Person, asg: Seq<i64>, t: int)
    requires
        feasible_allocation(p, asg),
        0 <= t < target_count(p),
    ensures
        asg[roi_var(p, t)] as int <= target_need(p, t),
{
}

// ---------------------------------------------------------------------
// Evaluation of the dense families
// ---------------------------------------------------------------------

/// The pair-variable area is never negative.
pub proof fn lemma_area_nonneg(p: Person)
    ensures
        combo_area(p) >= 0,
{
    assert(seg_count(p) * combo_count(p) >= 0) by (nonlinear_arith)
        requires
            seg_count(p) >= 0,
            combo_count(p) >= 0,
    ;
}

/// A raw-hours total constraint evaluates to the skill variable minus the
/// invested-hours sum.
proof fn lemma_eval_skill_sum(p: Person, t: int, c: Constraint, asg: Seq<i64>)
    requires
        0 <= t < target_count(p),
        skill_sum_con(p, t, c),
        asg.len() == var_count(p),
    ensures
        eval_terms(c.terms@, asg) == asg[skill_var(p, t)] - invested_in_skill(
            p,
            asg,
            target_skill(p, t),
        ),
{
    lemma_area_nonneg(p);
    let area = combo_area(p);
    let k = target_skill(p, t);
    lemma_eval_terms_is_sum(c.terms@, asg);
    let f = |mm: int| term_val(c.terms@[mm], asg);
    let g = |idx: int| term_val(c.terms@[idx + 1], asg);
    lemma_sum_of_shift(area as nat, f, g);
    assert(c.terms@.len() as int == area + 1);
    assert(sum_of(c.terms@.len(), f) == f(0) + sum_of(area as nat, g));
    assert(f(0) == 1 * asg[skill_var(p, t)]);
    let h = |idx: int|
        if combo_has_skill(p, idx % combo_count(p), k) {
            asg[idx] as int
        } else {
            0
        };
    assert forall|idx: int| 0 <= idx < area implies #[trigger] g(idx) == -h(idx) by {
        assert(c.terms@[idx + 1].var as int == idx);
        assert(0 <= idx < asg.len());
    };
    lemma_sum_of_neg(area as nat, h, g);
    assert(invested_in_skill(p, asg, k) == sum_of(area as nat, h)) by {
        lemma_sum_of_ext(
            area as nat,
            |idx: int|
                if combo_has_skill(p, idx % combo_count(p), k) {
                    asg[idx] as int
                } else {
                    0
                },
            h,
        );
    };
}

/// A segment total constraint evaluates to the segment variable minus the
/// size-weighted sum over that segment's pairs.
proof fn lemma_eval_seg_sum(p: Person, i: int, c: Constraint, asg: Seq<i64>)
    requires
        0 <= i < seg_count(p),
        seg_sum_con(p, i, c),
        asg.len() == var_count(p),
    ensures
        eval_terms(c.terms@, asg) == asg[seg_var(p, i)] - invested_in_segment(p, asg, i),
{
    lemma_area_nonneg(p);
    let cc = combo_count(p);
    lemma_eval_terms_is_sum(c.terms@, asg);
    let f = |mm: int| term_val(c.terms@[mm], asg);
    let g = |j: int| term_val(c.terms@[j + 1], asg);
    lemma_sum_of_shift(cc as nat, f, g);
    assert(c.terms@.len() as int == cc + 1);
    assert(sum_of(c.terms@.len(), f) == f(0) + sum_of(cc as nat, g));
    assert(f(0) == 1 * asg[seg_var(p, i)]);
    let h = |j: int| combo_len(p, j) * (asg[combo_var(p, i, j)] as int);
    assert forall|j: int| 0 <= j < cc implies #[trigger] g(j) == -h(j) by {
        lemma_combo_var_in_area(p, i, j);
        assert(c.terms@[j + 1].var as int == combo_var(p, i, j));
        assert(c.terms@[j + 1].coef as int == -combo_len(p, j));
        assert(0 <= combo_var(p, i, j) < asg.len());
        assert((-combo_len(p, j)) * (asg[combo_var(p, i, j)] as int) == -(combo_len(p, j) * (
        asg[combo_var(p, i, j)] as int))) by (nonlinear_arith);
    };
    lemma_sum_of_neg(cc as nat, h, g);
    assert(invested_in_segment(p, asg, i) == sum_of(cc as nat, h)) by {
        lemma_sum_of_ext(
            cc as nat,
            |j: int| combo_len(p, j) * (asg[combo_var(p, i, j)] as int),
            h,
        );
    };
}

/// The lower realized-output half evaluates to `SCALE * roi` minus the
/// bonus-weighted sum; the upper half to its negation.
proof fn lemma_eval_roi(p: Person, t: int, c: Constraint, asg: Seq<i64>, upper: bool)
    requires
        0 <= t < target_count(p),
        !upper ==> roi_lo_con(p, t, c),
        upper ==> roi_hi_con(p, t, c),
        asg.len() == var_count(p),
    ensures
        !upper ==> eval_terms(c.terms@, asg) == (SCALE as int) * (asg[roi_var(p, t)] as int)
            - weighted_roi(p, asg, target_skill(p, t)),
        upper ==> eval_terms(c.terms@, asg) == weighted_roi(p, asg, target_skill(p, t)) - (
        SCALE as int) * (asg[roi_var(p, t)] as int),
{
    lemma_area_nonneg(p);
    let area = combo_area(p);
    let k = target_skill(p, t);
    lemma_eval_terms_is_sum(c.terms@, asg);
    let f = |mm: int| term_val(c.terms@[mm], asg);
    let g = |idx: int| term_val(c.terms@[idx + 1], asg);
    lemma_sum_of_shift(area as nat, f, g);
    assert(c.terms@.len() as int == area + 1);
    assert(sum_of(c.terms@.len(), f) == f(0) + sum_of(area as nat, g));
    let h = |idx: int|
        if combo_has_skill(p, idx % combo_count(p), k) {
            combo_bonus(p, idx % combo_count(p)) * (asg[idx] as int)
        } else {
            0
        };
    assert(weighted_roi(p, asg, k) == sum_of(area as nat, h)) by {
        lemma_sum_of_ext(
            area as nat,
            |idx: int|
                if combo_has_skill(p, idx % combo_count(p), k) {
                    combo_bonus(p, idx % combo_count(p)) * (asg[idx] as int)
                } else {
                    0
                },
            h,
        );
    };
    if upper {
        assert(f(0) == (-(SCALE as int)) * (asg[roi_var(p, t)] as int));
        assert((-(SCALE as int)) * (asg[roi_var(p, t)] as int) == -((SCALE as int) * (asg[roi_var(
            p,
            t,
        )] as int))) by (nonlinear_arith);
        assert forall|idx: int| 0 <= idx < area implies #[trigger] g(idx) == h(idx) by {
            assert(c.terms@[idx + 1].var as int == idx);
            assert(0 <= idx < asg.len());
        };
        lemma_sum_of_ext(area as nat, g, h);
    } else {
        assert(f(0) == (SCALE as int) * (asg[roi_var(p, t)] as int));
        assert forall|idx: int| 0 <= idx < area implies #[trigger] g(idx) == -h(idx) by {
            assert(c.terms@[idx + 1].var as int == idx);
            assert(0 <= idx < asg.len());
            if combo_has_skill(p, idx % combo_count(p), k) {
                assert((-combo_bonus(p, idx % combo_count(p))) * (asg[idx] as int) == -(
                combo_bonus(p, idx % combo_count(p)) * (asg[idx] as int))) by (nonlinear_arith);
            }
        };
        lemma_sum_of_neg(area as nat, h, g);
    }
}

// ---------------------------------------------------------------------
// Soundness and completeness of the built model
// ---------------------------------------------------------------------

/// Every assignment satisfying the built model is a feasible allocation:
/// the constraint families imply each semantic feasibility rule.
pub proof fn lemma_model_sound(p: Person, m: Model, asg: Seq<i64>)
    requires
        person_wf(p),
        model_matches(p, m),
        satisfies(m, asg),
    ensures
        feasible_allocation(p, asg),
{
    lemma_area_nonneg(p);
    let cs = m.constraints@;
    assert forall|v: int| 0 <= v < var_count(p) implies asg[v] >= 0 by {
        assert(constraint_ok(cs[v], asg));
        lemma_eval_single(cs[v], v, 1, CmpOp::Ge, 0, asg);
    };
    assert forall|i: int| 0 <= i < seg_count(p) implies asg[#[trigger] seg_var(p, i)] as int
        <= seg_duration(p, i) by {
        assert(cap_con_at(p, cs, off_capacity(p), i));
        assert(constraint_ok(cs[off_capacity(p) + i], asg));
        lemma_eval_single(
            cs[off_capacity(p) + i],
            seg_var(p, i),
            1,
            CmpOp::Le,
            seg_duration(p, i),
            asg,
        );
    };
    assert forall|e: int, t: int|
        #![trigger p.safety_limit@[e], p.target@[t]]
        0 <= e < safety_count(p) && 0 <= t < target_count(p) && p.safety_limit@[e].0@
            == target_skill(p, t) implies asg[skill_var(p, t)] as int <= p.safety_limit@[e].1
        as int by {
        assert(safety_con_at(p, cs, off_safety(p), e));
        lemma_al_found(p.target@, p.safety_limit@[e].0@, t);
        assert(constraint_ok(cs[off_safety(p) + e], asg));
        lemma_eval_single(
            cs[off_safety(p) + e],
            skill_var(p, t),
            1,
            CmpOp::Le,
            p.safety_limit@[e].1 as int,
            asg,
        );
    };
    assert forall|t: int| 0 <= t < target_count(p) implies asg[#[trigger] skill_var(p, t)] as int
        == invested_in_skill(p, asg, target_skill(p, t)) by {
        assert(skill_sum_con_at(p, cs, off_skill_sum(p), t));
        assert(constraint_ok(cs[off_skill_sum(p) + t], asg));
        lemma_eval_skill_sum(p, t, cs[off_skill_sum(p) + t], asg);
    };
    assert forall|i: int| 0 <= i < seg_count(p) implies asg[#[trigger] seg_var(p, i)] as int
        == invested_in_segment(p, asg, i) by {
        assert(seg_sum_con_at(p, cs, off_seg_sum(p), i));
        assert(constraint_ok(cs[off_seg_sum(p) + i], asg));
        lemma_eval_seg_sum(p, i, cs[off_seg_sum(p) + i], asg);
    };
    assert forall|t: int|
        0 <= t < target_count(p) implies (SCALE as int) * (asg[#[trigger] roi_var(p, t)] as int)
        <= weighted_roi(p, asg, target_skill(p, t)) && weighted_roi(p, asg, target_skill(p, t))
        < (SCALE as int) * (asg[roi_var(p, t)] as int) + (SCALE as int) by {
        assert(roi_con_at(p, cs, off_roi(p), t));
        assert(constraint_ok(cs[off_roi(p) + 2 * t], asg));
        assert(constraint_ok(cs[off_roi(p) + 2 * t + 1], asg));
        lemma_eval_roi(p, t, cs[off_roi(p) + 2 * t], asg, false);
        lemma_eval_roi(p, t, cs[off_roi(p) + 2 * t + 1], asg, true);
    };
    assert forall|i: int, j: int|
        0 <= i < seg_count(p) && 0 <= j < combo_count(p) && !combo_allowed_in(p, i, j) implies
        asg[#[trigger] combo_var(p, i, j)] == 0 by {
        let l = choose|l: int|
            0 <= l < limit_count(p) && p.schedule_limit@[l].0@ == seg_name(p, i) && !combo_within(
                p.overlap@[j].combo@,
                p.schedule_limit@[l].1@,
            );
        assert(limit_con_at(p, cs, off_limits(p), l, j));
        lemma_al_found(p.schedule@, p.schedule_limit@[l].0@, i);
        let kk = off_limits(p) + l * combo_count(p) + j;
        assert(0 <= kk < cs.len()) by {
            lemma_mul_upper_bound(0, l, 0, combo_count(p));
            assert(l * combo_count(p) >= 0) by (nonlinear_arith)
                requires
                    l >= 0,
                    combo_count(p) >= 0,
            ;
            lemma_mul_inequality(l + 1, limit_count(p), combo_count(p));
            assert((l + 1) * combo_count(p) == l * combo_count(p) + combo_count(p))
                by (nonlinear_arith);
        };
        assert(constraint_ok(cs[kk], asg));
        lemma_combo_var_in_area(p, i, j);
        lemma_eval_single(cs[kk], combo_var(p, i, j), 1, CmpOp::Eq, 0, asg);
    };
    assert forall|t: int| 0 <= t < target_count(p) implies asg[#[trigger] roi_var(p, t)] as int
        <= target_need(p, t) by {
        assert(need_con_at(p, cs, off_need(p), t));
        assert(constraint_ok(cs[off_need(p) + t], asg));
        lemma_eval_single(cs[off_need(p) + t], roi_var(p, t), 1, CmpOp::Le, target_need(p, t), asg);
    };
}

/// Every feasible allocation satisfies the built model: each constraint,
/// identified by its position, follows from the semantic rules.
pub proof fn lemma_model_complete(p: Person, m: Model, asg: Seq<i64>)
    requires
        person_wf(p),
        model_matches(p, m),
        feasible_allocation(p, asg),
    ensures
        satisfies(m, asg),
{
    lemma_area_nonneg(p);
    let cs = m.constraints@;
    assert forall|k: int| 0 <= k < cs.len() implies constraint_ok(#[trigger] cs[k], asg) by {
        if k < off_capacity(p) {
            let v = k;
            lemma_eval_single(cs[k], v, 1, CmpOp::Ge, 0, asg);
        } else if k < off_safety(p) {
            let i = k - off_capacity(p);
            assert(cap_con_at(p, cs, off_capacity(p), i));
            assert(asg[seg_var(p, i)] as int <= seg_duration(p, i));
            lemma_eval_single(cs[k], seg_var(p, i), 1, CmpOp::Le, seg_duration(p, i), asg);
        } else if k < off_skill_sum(p) {
            let e = k - off_safety(p);
            assert(safety_con_at(p, cs, off_safety(p), e));
            let key = p.safety_limit@[e].0@;
            if al_contains(p.target@, key) {
                let t = al_index(p.target@, key);
                assert(0 <= t < target_count(p) && p.target@[t].0@ == key);
                assert(p.safety_limit@[e].0@ == target_skill(p, t));
                assert(asg[skill_var(p, t)] as int <= p.safety_limit@[e].1 as int);
                lemma_eval_single(
                    cs[k],
                    skill_var(p, t),
                    1,
                    CmpOp::Le,
                    p.safety_limit@[e].1 as int,
                    asg,
                );
            } else {
                lemma_eval_empty(cs[k], CmpOp::Le, p.safety_limit@[e].1 as int, asg);
            }
        } else if k < off_seg_sum(p) {
            let t = k - off_skill_sum(p);
            assert(skill_sum_con_at(p, cs, off_skill_sum(p), t));
            assert(asg[skill_var(p, t)] as int == invested_in_skill(p, asg, target_skill(p, t)));
            lemma_eval_skill_sum(p, t, cs[k], asg);
        } else if k < off_roi(p) {
            let i = k - off_seg_sum(p);
            assert(seg_sum_con_at(p, cs, off_seg_sum(p), i));
            assert(asg[seg_var(p, i)] as int == invested_in_segment(p, asg, i));
            lemma_eval_seg_sum(p, i, cs[k], asg);
        } else if k < off_limits(p) {
            let d = k - off_roi(p);
            let t = d / 2;
            assert(0 <= t < target_count(p));
            assert(roi_con_at(p, cs, off_roi(p), t));
            if d % 2 == 0 {
                assert(k == off_roi(p) + 2 * t);
                lemma_eval_roi(p, t, cs[k], asg, false);
            } else {
                assert(k == off_roi(p) + 2 * t + 1);
                lemma_eval_roi(p, t, cs[k], asg, true);
            }
        } else if k < off_need(p) {
            let d = k - off_limits(p);
            let cc = combo_count(p);
            assert(cc > 0) by (nonlinear_arith)
                requires
                    0 <= d < limit_count(p) * cc,
                    cc >= 0,
                    limit_count(p) >= 0,
            ;
            let l = d / cc;
            let j = d % cc;
            lemma_fundamental_div_mod(d, cc);
            assert(d == cc * (d / cc) + d % cc);
            assert(l * cc == cc * l) by (nonlinear_arith);
            assert(0 <= l < limit_count(p)) by (nonlinear_arith)
                requires
                    d == l * cc + j,
                    0 <= d < limit_count(p) * cc,
                    0 <= j < cc,
                    cc > 0,
            ;
            assert(limit_con_at(p, cs, off_limits(p), l, j));
            let key = p.schedule_limit@[l].0@;
            if al_contains(p.schedule@, key) && !combo_within(
                p.overlap@[j].combo@,
                p.schedule_limit@[l].1@,
            ) {
                let si = al_index(p.schedule@, key);
                assert(0 <= si < seg_count(p) && p.schedule@[si].0@ == key);
                assert(!combo_allowed_in(p, si, j));
                assert(asg[combo_var(p, si, j)] == 0);
                lemma_combo_var_in_area(p, si, j);
                lemma_eval_single(cs[k], combo_var(p, si, j), 1, CmpOp::Eq, 0, asg);
            } else {
                lemma_eval_empty(cs[k], CmpOp::Eq, 0, asg);
            }
        } else {
            let t = k - off_need(p);
            assert(need_con_at(p, cs, off_need(p), t));
            assert(asg[roi_var(p, t)] as int <= target_need(p, t));
            lemma_eval_single(cs[k], roi_var(p, t), 1, CmpOp::Le, target_need(p, t), asg);
        }
    };
}

/// The built model and the semantic feasibility rules accept exactly the
/// same assignments.
pub proof fn lemma_model_equiv(p: Person, m: Model, asg: Seq<i64>)
    requires
        person_wf(p),
        model_matches(p, m),
    ensures
        satisfies(m, asg) <==> feasible_allocation(p, asg),
{
    if satisfies(m, asg) {
        lemma_model_sound(p, m, asg);
    }
    if feasible_allocation(p, asg) {
        lemma_model_complete(p, m, asg);
    }
}

// ---------------------------------------------------------------------
// Executable construction
// ---------------------------------------------------------------------

/// Number of (segment, combo) pair variables, executable.
fn area_of(p: &Person) -> (a: usize)
    requires
        person_wf(*p),
    ensures
        a as int == combo_area(*p),
{
    proof {
        lemma_counts(*p);
    }
    p.schedule.len() * p.overlap.len()
}

/// Total variable count, executable.
fn var_count_of(p: &Person) -> (n: usize)
    requires
        person_wf(*p),
    ensures
        n as int == var_count(*p),
{
    proof {
        lemma_counts(*p);
    }
    area_of(p) + p.target.len() + p.schedule.len() + p.target.len()
}

/// Every skill of `combo` is named by `allowed`.
pub(crate) fn check_combo_within(combo: &Vec<String>, allowed: &Vec<String>) -> (r: bool)
    ensures
        r == combo_within(combo@, allowed@),
{
    let n: usize = combo.len();
    let mut q: usize = 0;
    while q < n
        invariant
            n == combo@.len(),
            q <= n,
            forall|x: int| 0 <= x < q ==> names_contain(allowed@, #[trigger] combo@[x]@),
        decreases n - q,
    {
        if !names_find(allowed, &combo[q]) {
            assert(!names_contain(allowed@, combo@[q as int]@));
            return false;
        }
        q = q + 1;
    }
    true
}

/// The non-negativity family: one `v >= 0` constraint per variable.
fn nonneg_cons(nv: usize) -> (v: Vec<Constraint>)
    ensures
        v@.len() == nv,
        forall|q: int| 0 <= q < nv ==> single_term_con(#[trigger] v@[q], q, 1, CmpOp::Ge, 0),
        forall|q: int| 0 <= q < nv ==> constraint_wf(#[trigger] v@[q], nv as int),
{
    let mut v: Vec<Constraint> = Vec::new();
    let mut w: usize = 0;
    while w < nv
        invariant
            v@.len() == w,
            w <= nv,
            forall|q: int| 0 <= q < w ==> single_term_con(#[trigger] v@[q], q, 1, CmpOp::Ge, 0),
            forall|q: int| 0 <= q < w ==> constraint_wf(#[trigger] v@[q], nv as int),
        decreases nv - w,
    {
        v.push(Constraint { terms: vec![LinTerm { var: w, coef: 1 }], op: CmpOp::Ge, rhs: 0 });
        w = w + 1;
    }
    v
}

/// The capacity family: segment usage bounded by scheduled duration.
fn capacity_cons(p: &Person) -> (v: Vec<Constraint>)
    requires
        person_wf(*p),
    ensures
        v@.len() == seg_count(*p),
        forall|i: int| 0 <= i < seg_count(*p) ==> #[trigger] cap_con_at(*p, v@, 0, i),
        forall|i: int| 0 <= i < seg_count(*p) ==> constraint_wf(#[trigger] v@[i], var_count(*p)),
{
    let area = area_of(p);
    let t_count: usize = p.target.len();
    let s_count: usize = p.schedule.len();
    let mut v: Vec<Constraint> = Vec::new();
    let mut i: usize = 0;
    while i < s_count
        invariant
            person_wf(*p),
            area as int == combo_area(*p),
            t_count == p.target@.len(),
            s_count == p.schedule@.len(),
            v@.len() == i,
            i <= s_count,
            forall|q: int| 0 <= q < i ==> #[trigger] cap_con_at(*p, v@, 0, q),
            forall|q: int| 0 <= q < i ==> constraint_wf(#[trigger] v@[q], var_count(*p)),
        decreases s_count - i,
    {
        proof {
            lemma_counts(*p);
        }
        let sv: usize = area + t_count + i;
        let ghost v_old = v@;
        v.push(
            Constraint {
                terms: vec![LinTerm { var: sv, coef: 1 }],
                op: CmpOp::Le,
                rhs: p.schedule[i].1,
            },
        );
        proof {
            assert forall|q: int| 0 <= q < i + 1 implies #[trigger] cap_con_at(*p, v@, 0, q) by {
                if q < i {
                    assert(cap_con_at(*p, v_old, 0, q));
                    assert(v@[q] == v_old[q]);
                }
            };
        }
        i = i + 1;
    }
    v
}

/// The safety family: one constraint per safety entry, binding the skill
/// variable when the capped skill is under target.
fn safety_cons(p: &Person) -> (v: Vec<Constraint>)
    requires
        person_wf(*p),
    ensures
        v@.len() == safety_count(*p),
        forall|e: int| 0 <= e < safety_count(*p) ==> #[trigger] safety_con_at(*p, v@, 0, e),
        forall|e: int| 0 <= e < safety_count(*p) ==> constraint_wf(#[trigger] v@[e], var_count(*p)),
{
    let area = area_of(p);
    let n: usize = p.safety_limit.len();
    let mut v: Vec<Constraint> = Vec::new();
    let mut e: usize = 0;
    while e < n
        invariant
            person_wf(*p),
            area as int == combo_area(*p),
            n == p.safety_limit@.len(),
            v@.len() == e,
            e <= n,
            forall|q: int| 0 <= q < e ==> #[trigger] safety_con_at(*p, v@, 0, q),
            forall|q: int| 0 <= q < e ==> constraint_wf(#[trigger] v@[q], var_count(*p)),
        decreases n - e,
    {
        proof {
            lemma_counts(*p);
        }
        let limit: i64 = p.safety_limit[e].1;
        let found = al_find(&p.target, &p.safety_limit[e].0);
        let c: Constraint = match found {
            Some(t) => {
                proof {
                    lemma_al_found(p.target@, p.safety_limit@[e as int].0@, t as int);
                }
                Constraint {
                    terms: vec![LinTerm { var: area + t, coef: 1 }],
                    op: CmpOp::Le,
                    rhs: limit,
                }
            },
            None => Constraint { terms: Vec::new(), op: CmpOp::Le, rhs: limit },
        };
        let ghost v_old = v@;
        v.push(c);
        proof {
            assert(safety_con(*p, e as int, c));
            assert forall|q: int| 0 <= q < e + 1 implies #[trigger] safety_con_at(
                *p,
                v@,
                0,
                q,
            ) by {
                if q < e {
                    assert(safety_con_at(*p, v_old, 0, q));
                    assert(v@[q] == v_old[q]);
                }
            };
        }
        e = e + 1;
    }
    v
}

/// The need family: realized output for each target bounded by its
/// remaining hours needed.
fn need_cons(p: &Person) -> (v: Vec<Constraint>)
    requires
        person_wf(*p),
    ensures
        v@.len() == target_count(*p),
        forall|t: int| 0 <= t < target_count(*p) ==> #[trigger] need_con_at(*p, v@, 0, t),
        forall|t: int| 0 <= t < target_count(*p) ==> constraint_wf(#[trigger] v@[t], var_count(*p)),
{
    let area = area_of(p);
    let t_count: usize = p.target.len();
    let s_count: usize = p.schedule.len();
    let mut v: Vec<Constraint> = Vec::new();
    let mut t: usize = 0;
    while t < t_count
        invariant
            person_wf(*p),
            area as int == combo_area(*p),
            t_count == p.target@.len(),
            s_count == p.schedule@.len(),
            v@.len() == t,
            t <= t_count,
            forall|q: int| 0 <= q < t ==> #[trigger] need_con_at(*p, v@, 0, q),
            forall|q: int| 0 <= q < t ==> constraint_wf(#[trigger] v@[q], var_count(*p)),
        decreases t_count - t,
    {
        proof {
            lemma_counts(*p);
        }
        let rv: usize = area + t_count + s_count + t;
        let ghost v_old = v@;
        v.push(
            Constraint {
                terms: vec![LinTerm { var: rv, coef: 1 }],
                op: CmpOp::Le,
                rhs: p.target[t].1.hours_needed,
            },
        );
        proof {
            assert forall|q: int| 0 <= q < t + 1 implies #[trigger] need_con_at(*p, v@, 0, q) by {
                if q < t {
                    assert(need_con_at(*p, v_old, 0, q));
                    assert(v@[q] == v_old[q]);
                }
            };
        }
        t = t + 1;
    }
    v
}

/// One raw-hours total constraint (the skill variable against the pair
/// variables of combos containing the skill).
fn build_skill_sum_con(p: &Person, t: usize) -> (c: Constraint)
    requires
        person_wf(*p),
        (t as int) < target_count(*p),
    ensures
        skill_sum_con(*p, t as int, c),
        constraint_wf(c, var_count(*p)),
{
    let area = area_of(p);
    let c_count: usize = p.overlap.len();
    let mut terms: Vec<LinTerm> = Vec::new();
    proof {
        lemma_counts(*p);
    }
    terms.push(LinTerm { var: area + t, coef: 1 });
    let mut idx: usize = 0;
    while idx < area
        invariant
            person_wf(*p),
            (t as int) < target_count(*p),
            area as int == combo_area(*p),
            c_count == p.overlap@.len(),
            terms@.len() == 1 + idx,
            idx <= area,
            terms@[0].var as int == skill_var(*p, t as int),
            terms@[0].coef == 1i64,
            forall|x: int| 1 <= x < terms@.len() ==> (#[trigger] terms@[x]).var as int == x - 1
                && terms@[x].coef as int == (
                    if combo_has_skill(*p, (x - 1) % combo_count(*p), target_skill(*p, t as int)) {
                        -1
                    } else {
                        0
                    }
                ),
        decreases area - idx,
    {
        proof {
            lemma_counts(*p);
            assert(combo_count(*p) > 0) by (nonlinear_arith)
                requires
                    combo_area(*p) == seg_count(*p) * combo_count(*p),
                    combo_area(*p) > idx as int >= 0,
                    combo_count(*p) >= 0,
                    seg_count(*p) >= 0,
            ;
        }
        let j: usize = idx % c_count;
        let has = names_find(&p.overlap[j].combo, &p.target[t].0);
        terms.push(LinTerm { var: idx, coef: if has { -1 } else { 0 } });
        idx = idx + 1;
    }
    Constraint { terms, op: CmpOp::Eq, rhs: 0 }
}

/// One realized-output constraint half.  With `upper` false it is the
/// lower half (`SCALE * roi - weighted sum <= 0`), with `upper` true the
/// upper half (`weighted sum - SCALE * roi <= SCALE - 1`).
fn build_roi_con(p: &Person, t: usize, upper: bool) -> (c: Constraint)
    requires
        person_wf(*p),
        (t as int) < target_count(*p),
    ensures
        !upper ==> roi_lo_con(*p, t as int, c),
        upper ==> roi_hi_con(*p, t as int, c),
        constraint_wf(c, var_count(*p)),
{
    let area = area_of(p);
    let c_count: usize = p.overlap.len();
    let t_count: usize = p.target.len();
    let s_count: usize = p.schedule.len();
    let mut terms: Vec<LinTerm> = Vec::new();
    let head: i64 = if upper {
        -SCALE
    } else {
        SCALE
    };
    proof {
        lemma_counts(*p);
    }
    terms.push(LinTerm { var: area + t_count + s_count + t, coef: head });
    let mut idx: usize = 0;
    while idx < area
        invariant
            person_wf(*p),
            (t as int) < target_count(*p),
            area as int == combo_area(*p),
            c_count == p.overlap@.len(),
            terms@.len() == 1 + idx,
            idx <= area,
            terms@[0].var as int == roi_var(*p, t as int),
            terms@[0].coef as int == (
                if upper {
                    -(SCALE as int)
                } else {
                    SCALE as int
                }
            ),
            forall|x: int| 1 <= x < terms@.len() ==> (#[trigger] terms@[x]).var as int == x - 1
                && terms@[x].coef as int == (
                    if combo_has_skill(*p, (x - 1) % combo_count(*p), target_skill(*p, t as int)) {
                        if upper {
                            combo_bonus(*p, (x - 1) % combo_count(*p))
                        } else {
                            -combo_bonus(*p, (x - 1) % combo_count(*p))
                        }
                    } else {
                        0
                    }
                ),
        decreases area - idx,
    {
        proof {
            lemma_counts(*p);
            assert(combo_count(*p) > 0) by (nonlinear_arith)
                requires
                    combo_area(*p) == seg_count(*p) * combo_count(*p),
                    combo_area(*p) > idx as int >= 0,
                    combo_count(*p) >= 0,
                    seg_count(*p) >= 0,
            ;
        }
        let j: usize = idx % c_count;
        let has = names_find(&p.overlap[j].combo, &p.target[t].0);
        let coef: i64 = if has {
            if upper {
                p.overlap[j].bonus
            } else {
                -p.overlap[j].bonus
            }
        } else {
            0
        };
        terms.push(LinTerm { var: idx, coef });
        idx = idx + 1;
    }
    proof {
        lemma_counts(*p);
        assert forall|x: int| 1 <= x < terms@.len() implies -MAX_COEF
            <= (#[trigger] terms@[x]).coef <= MAX_COEF by {
            let cc = combo_count(*p);
            assert(cc > 0) by (nonlinear_arith)
                requires
                    combo_area(*p) == seg_count(*p) * cc,
                    combo_area(*p) >= 1,
                    cc >= 0,
                    seg_count(*p) >= 0,
            ;
            assert(0 <= (x - 1) % cc < cc);
            assert(0 <= p.overlap@[(x - 1) % cc].bonus <= MAX_BONUS);
        };
    }
    if upper {
        Constraint { terms, op: CmpOp::Le, rhs: SCALE - 1 }
    } else {
        Constraint { terms, op: CmpOp::Le, rhs: 0 }
    }
}

/// One segment total constraint (the segment variable against the
/// size-weighted pair variables of that segment).
fn build_seg_sum_con(p: &Person, i: usize) -> (c: Constraint)
    requires
        person_wf(*p),
        (i as int) < seg_count(*p),
    ensures
        seg_sum_con(*p, i as int, c),
        constraint_wf(c, var_count(*p)),
{
    let area = area_of(p);
    let c_count: usize = p.overlap.len();
    let t_count: usize = p.target.len();
    let mut terms: Vec<LinTerm> = Vec::new();
    proof {
        lemma_counts(*p);
        lemma_mul_upper_bound(i as int, MAX_LIST as int, c_count as int, MAX_LIST as int);
        assert(i as int * c_count as int >= 0) by (nonlinear_arith)
            requires
                i as int >= 0,
                c_count as int >= 0,
        ;
    }
    terms.push(LinTerm { var: area + t_count + i, coef: 1 });
    let base: usize = i * c_count;
    proof {
        lemma_mul_upper_bound(i as int, MAX_LIST as int, c_count as int, MAX_LIST as int);
        assert(i as int * c_count as int >= 0) by (nonlinear_arith)
            requires
                i as int >= 0,
                c_count as int >= 0,
        ;
        lemma_mul_inequality(i as int + 1, seg_count(*p), combo_count(*p));
        assert((i as int + 1) * combo_count(*p) == i as int * combo_count(*p) + combo_count(*p))
            by (nonlinear_arith);
    }
    let mut j: usize = 0;
    while j < c_count
        invariant
            person_wf(*p),
            (i as int) < seg_count(*p),
            area as int == combo_area(*p),
            c_count == p.overlap@.len(),
            t_count == p.target@.len(),
            base as int == i as int * c_count as int,
            base + c_count <= area,
            terms@.len() == 1 + j,
            j <= c_count,
            terms@[0].var as int == seg_var(*p, i as int),
            terms@[0].coef == 1i64,
            forall|x: int| 1 <= x < terms@.len() ==> (#[trigger] terms@[x]).var as int == combo_var(
                *p,
                i as int,
                x - 1,
            ) && terms@[x].coef as int == -combo_len(*p, x - 1),
        decreases c_count - j,
    {
        proof {
            lemma_counts(*p);
        }
        let len_j: i64 = p.overlap[j].combo.len() as i64;
        terms.push(LinTerm { var: base + j, coef: -len_j });
        j = j + 1;
    }
    Constraint { terms, op: CmpOp::Eq, rhs: 0 }
}

/// The schedule-limit family: for each limit entry and combo, a pin-to-
/// zero constraint when the combo is barred from the limited segment.
fn limit_cons(p: &Person) -> (v: Vec<Constraint>)
    requires
        person_wf(*p),
    ensures
        v@.len() == limit_count(*p) * combo_count(*p),
        forall|l: int, j: int|
            0 <= l < limit_count(*p) && 0 <= j < combo_count(*p) ==> #[trigger] limit_con_at(
                *p,
                v@,
                0,
                l,
                j,
            ),
        forall|q: int| 0 <= q < v@.len() ==> constraint_wf(#[trigger] v@[q], var_count(*p)),
{
    let c_count: usize = p.overlap.len();
    let l_count: usize = p.schedule_limit.len();
    proof {
        lemma_counts(*p);
    }
    let mut v: Vec<Constraint> = Vec::new();
    let mut l: usize = 0;
    while l < l_count
        invariant
            person_wf(*p),
            c_count == p.overlap@.len(),
            l_count == p.schedule_limit@.len(),
            v@.len() == l as int * c_count as int,
            l <= l_count,
            forall|a: int, b: int|
                0 <= a < l && 0 <= b < c_count ==> #[trigger] limit_con_at(*p, v@, 0, a, b),
            forall|q: int| 0 <= q < v@.len() ==> constraint_wf(#[trigger] v@[q], var_count(*p)),
        decreases l_count - l,
    {
        proof {
            lemma_mul_upper_bound(l as int, MAX_LIST as int, c_count as int, MAX_LIST as int);
            assert(l as int * c_count as int >= 0) by (nonlinear_arith)
                requires
                    l as int >= 0,
                    c_count as int >= 0,
            ;
            assert((l as int + 1) * c_count as int == l as int * c_count as int + c_count as int)
                by (nonlinear_arith);
        }
        let found = al_find(&p.schedule, &p.schedule_limit[l].0);
        let mut j: usize = 0;
        while j < c_count
            invariant
                person_wf(*p),
                c_count == p.overlap@.len(),
                l_count == p.schedule_limit@.len(),
                (l as int) < l_count as int,
                v@.len() == l as int * c_count as int + j,
                j <= c_count,
                match found {
                    Some(si) => (si as int) < seg_count(*p) && p.schedule@[si as int].0@
                        == p.schedule_limit@[l as int].0@,
                    None => !al_contains(p.schedule@, p.schedule_limit@[l as int].0@),
                },
                forall|a: int, b: int|
                    0 <= a < l && 0 <= b < c_count ==> #[trigger] limit_con_at(*p, v@, 0, a, b),
                forall|b: int| 0 <= b < j ==> #[trigger] limit_con_at(*p, v@, 0, l as int, b),
                forall|q: int| 0 <= q < v@.len() ==> constraint_wf(#[trigger] v@[q], var_count(*p)),
            decreases c_count - j,
        {
            let c: Constraint = match found {
                Some(si) => {
                    if !check_combo_within(&p.overlap[j].combo, &p.schedule_limit[l].1) {
                        proof {
                            lemma_counts(*p);
                            lemma_al_found(
                                p.schedule@,
                                p.schedule_limit@[l as int].0@,
                                si as int,
                            );
                            lemma_combo_var_in_area(*p, si as int, j as int);
                            lemma_mul_upper_bound(
                                si as int,
                                MAX_LIST as int,
                                c_count as int,
                                MAX_LIST as int,
                            );
                            assert(si as int * c_count as int >= 0) by (nonlinear_arith)
                                requires
                                    si as int >= 0,
                                    c_count as int >= 0,
                            ;
                        }
                        let base: usize = si * c_count;
                        Constraint {
                            terms: vec![LinTerm { var: base + j, coef: 1 }],
                            op: CmpOp::Eq,
                            rhs: 0,
                        }
                    } else {
                        Constraint { terms: Vec::new(), op: CmpOp::Eq, rhs: 0 }
                    }
                },
                None => Constraint { terms: Vec::new(), op: CmpOp::Eq, rhs: 0 },
            };
            let ghost v_old = v@;
            v.push(c);
            proof {
                assert(limit_con(*p, l as int, j as int, c));
                assert forall|a: int, b: int| 0 <= a < l && 0 <= b < c_count implies
                    #[trigger] limit_con_at(*p, v@, 0, a, b) by {
                    lemma_mul_inequality(a + 1, l as int, c_count as int);
                    assert((a + 1) * (c_count as int) == a * (c_count as int) + c_count as int)
                        by (nonlinear_arith);
                    assert(a * (c_count as int) >= 0) by (nonlinear_arith)
                        requires
                            a >= 0,
                            c_count as int >= 0,
                    ;
                    assert(limit_con_at(*p, v_old, 0, a, b));
                    assert(v@[a * (c_count as int) + b] == v_old[a * (c_count as int) + b]);
                };
                assert forall|b: int| 0 <= b < j + 1 implies #[trigger] limit_con_at(
                    *p,
                    v@,
                    0,
                    l as int,
                    b,
                ) by {
                    if b < j {
                        assert(limit_con_at(*p, v_old, 0, l as int, b));
                        assert(v@[l as int * c_count as int + b] == v_old[l as int * c_count
                            as int + b]);
                    } else {
                        assert(l as int * c_count as int + b == v_old.len());
                        assert(v@[l as int * c_count as int + b] == c);
                    }
                };
            }
            j = j + 1;
        }
        l = l + 1;
    }
    v
}

/// The raw-hours total family, one constraint per target.
fn skill_sum_cons(p: &Person) -> (v: Vec<Constraint>)
    requires
        person_wf(*p),
    ensures
        v@.len() == target_count(*p),
        forall|t: int| 0 <= t < target_count(*p) ==> #[trigger] skill_sum_con_at(*p, v@, 0, t),
        forall|q: int| 0 <= q < v@.len() ==> constraint_wf(#[trigger] v@[q], var_count(*p)),
{
    let t_count: usize = p.target.len();
    let mut v: Vec<Constraint> = Vec::new();
    let mut t: usize = 0;
    while t < t_count
        invariant
            person_wf(*p),
            t_count == p.target@.len(),
            v@.len() == t,
            t <= t_count,
            forall|q: int| 0 <= q < t ==> #[trigger] skill_sum_con_at(*p, v@, 0, q),
            forall|q: int| 0 <= q < v@.len() ==> constraint_wf(#[trigger] v@[q], var_count(*p)),
        decreases t_count - t,
    {
        let ghost v_old = v@;
        v.push(build_skill_sum_con(p, t));
        proof {
            assert forall|q: int| 0 <= q < t + 1 implies #[trigger] skill_sum_con_at(
                *p,
                v@,
                0,
                q,
            ) by {
                if q < t {
                    assert(skill_sum_con_at(*p, v_old, 0, q));
                    assert(v@[q] == v_old[q]);
                }
            };
        }
        t = t + 1;
    }
    v
}

/// The segment total family, one constraint per segment.
fn seg_sum_cons(p: &Person) -> (v: Vec<Constraint>)
    requires
        person_wf(*p),
    ensures
        v@.len() == seg_count(*p),
        forall|i: int| 0 <= i < seg_count(*p) ==> #[trigger] seg_sum_con_at(*p, v@, 0, i),
        forall|q: int| 0 <= q < v@.len() ==> constraint_wf(#[trigger] v@[q], var_count(*p)),
{
    let s_count: usize = p.schedule.len();
    let mut v: Vec<Constraint> = Vec::new();
    let mut i: usize = 0;
    while i < s_count
        invariant
            person_wf(*p),
            s_count == p.schedule@.len(),
            v@.len() == i,
            i <= s_count,
            forall|q: int| 0 <= q < i ==> #[trigger] seg_sum_con_at(*p, v@, 0, q),
            forall|q: int| 0 <= q < v@.len() ==> constraint_wf(#[trigger] v@[q], var_count(*p)),
        decreases s_count - i,
    {
        let ghost v_old = v@;
        v.push(build_seg_sum_con(p, i));
        proof {
            assert forall|q: int| 0 <= q < i + 1 implies #[trigger] seg_sum_con_at(
                *p,
                v@,
                0,
                q,
            ) by {
                if q < i {
                    assert(seg_sum_con_at(*p, v_old, 0, q));
                    assert(v@[q] == v_old[q]);
                }
            };
        }
        i = i + 1;
    }
    v
}

/// The realized-output family, two constraint halves per target.
fn roi_cons(p: &Person) -> (v: Vec<Constraint>)
    requires
        person_wf(*p),
    ensures
        v@.len() == 2 * target_count(*p),
        forall|t: int| 0 <= t < target_count(*p) ==> #[trigger] roi_con_at(*p, v@, 0, t),
        forall|q: int| 0 <= q < v@.len() ==> constraint_wf(#[trigger] v@[q], var_count(*p)),
{
    let t_count: usize = p.target.len();
    let mut v: Vec<Constraint> = Vec::new();
    let mut t: usize = 0;
    while t < t_count
        invariant
            person_wf(*p),
            t_count == p.target@.len(),
            v@.len() == 2 * t,
            t <= t_count,
            forall|q: int| 0 <= q < t ==> #[trigger] roi_con_at(*p, v@, 0, q),
            forall|q: int| 0 <= q < v@.len() ==> constraint_wf(#[trigger] v@[q], var_count(*p)),
        decreases t_count - t,
    {
        let ghost v_old = v@;
        let lo = build_roi_con(p, t, false);
        let hi = build_roi_con(p, t, true);
        v.push(lo);
        v.push(hi);
        proof {
            assert forall|q: int| 0 <= q < t + 1 implies #[trigger] roi_con_at(*p, v@, 0, q) by {
                if q < t {
                    assert(roi_con_at(*p, v_old, 0, q));
                    assert(v@[2 * q] == v_old[2 * q]);
                    assert(v@[2 * q + 1] == v_old[2 * q + 1]);
                } else {
                    assert(v@[2 * q] == lo);
                    assert(v@[2 * q + 1] == hi);
                }
            };
        }
        t = t + 1;
    }
    v
}

/// The objective: each realized-output variable weighted by the skill's
/// preference weight.
fn objective_terms(p: &Person) -> (v: Vec<LinTerm>)
    requires
        person_wf(*p),
    ensures
        v@.len() == target_count(*p),
        forall|t: int| 0 <= t < target_count(*p) ==> (#[trigger] v@[t]).var as int == roi_var(*p, t)
            && v@[t].coef as int == weight_of(*p, target_skill(*p, t)),
{
    let area = area_of(p);
    let t_count: usize = p.target.len();
    let s_count: usize = p.schedule.len();
    let mut v: Vec<LinTerm> = Vec::new();
    let mut t: usize = 0;
    while t < t_count
        invariant
            person_wf(*p),
            area as int == combo_area(*p),
            t_count == p.target@.len(),
            s_count == p.schedule@.len(),
            v@.len() == t,
            t <= t_count,
            forall|q: int| 0 <= q < t ==> (#[trigger] v@[q]).var as int == roi_var(*p, q)
                && v@[q].coef as int == weight_of(*p, target_skill(*p, q)),
        decreases t_count - t,
    {
        proof {
            lemma_counts(*p);
        }
        let weight: i64 = match al_find(&p.preference, &p.target[t].0) {
            Some(w) => {
                proof {
                    lemma_al_found(p.preference@, p.target@[t as int].0@, w as int);
                }
                p.preference[w].1
            },
            None => SCALE,
        };
        v.push(LinTerm { var: area + t_count + s_count + t, coef: weight });
        t = t + 1;
    }
    v
}

/// Builds the allocation model for one person's day: the four variable
/// groups, the eight constraint families in order, and the preference-
/// weighted objective.
pub fn build_model(p: &Person) -> (m: Model)
    requires
        person_wf(*p),
    ensures
        model_matches(*p, m),
        model_wf(m),
        forall|asg: Seq<i64>| satisfies(m, asg) <==> feasible_allocation(*p, asg),
{
    let nv: usize = var_count_of(p);
    let mut cons: Vec<Constraint> = nonneg_cons(nv);
    let ghost g1 = cons@;
    let mut f2 = capacity_cons(p);
    let ghost g2 = f2@;
    cons.append(&mut f2);
    let mut f3 = safety_cons(p);
    let ghost g3 = f3@;
    cons.append(&mut f3);
    let mut f4 = skill_sum_cons(p);
    let ghost g4 = f4@;
    cons.append(&mut f4);
    let mut f5 = seg_sum_cons(p);
    let ghost g5 = f5@;
    cons.append(&mut f5);
    let mut f6 = roi_cons(p);
    let ghost g6 = f6@;
    cons.append(&mut f6);
    let mut f7 = limit_cons(p);
    let ghost g7 = f7@;
    cons.append(&mut f7);
    let mut f8 = need_cons(p);
    let ghost g8 = f8@;
    cons.append(&mut f8);
    let objective = objective_terms(p);
    let m = Model { num_vars: nv, objective, constraints: cons };
    proof {
        lemma_counts(*p);
        let cs = m.constraints@;
        assert forall|i: int| 0 <= i < seg_count(*p) implies #[trigger] cap_con_at(
            *p,
            cs,
            off_capacity(*p),
            i,
        ) by {
            assert(cap_con_at(*p, g2, 0, i));
            assert(cs[off_capacity(*p) + i] == g2[i]);
        };
        assert forall|e: int| 0 <= e < safety_count(*p) implies #[trigger] safety_con_at(
            *p,
            cs,
            off_safety(*p),
            e,
        ) by {
            assert(safety_con_at(*p, g3, 0, e));
            assert(cs[off_safety(*p) + e] == g3[e]);
        };
        assert forall|t: int| 0 <= t < target_count(*p) implies #[trigger] skill_sum_con_at(
            *p,
            cs,
            off_skill_sum(*p),
            t,
        ) by {
            assert(skill_sum_con_at(*p, g4, 0, t));
            assert(cs[off_skill_sum(*p) + t] == g4[t]);
        };
        assert forall|i: int| 0 <= i < seg_count(*p) implies #[trigger] seg_sum_con_at(
            *p,
            cs,
            off_seg_sum(*p),
            i,
        ) by {
            assert(seg_sum_con_at(*p, g5, 0, i));
            assert(cs[off_seg_sum(*p) + i] == g5[i]);
        };
        assert forall|t: int| 0 <= t < target_count(*p) implies #[trigger] roi_con_at(
            *p,
            cs,
            off_roi(*p),
            t,
        ) by {
            assert(roi_con_at(*p, g6, 0, t));
            assert(cs[off_roi(*p) + 2 * t] == g6[2 * t]);
            assert(cs[off_roi(*p) + 2 * t + 1] == g6[2 * t + 1]);
        };
        assert forall|l: int, j: int|
            0 <= l < limit_count(*p) && 0 <= j < combo_count(*p) implies #[trigger] limit_con_at(
            *p,
            cs,
            off_limits(*p),
            l,
            j,
        ) by {
            assert(limit_con_at(*p, g7, 0, l, j));
            lemma_mul_upper_bound(l as int, MAX_LIST as int, combo_count(*p), MAX_LIST as int);
            assert(l * combo_count(*p) >= 0) by (nonlinear_arith)
                requires
                    l >= 0,
                    combo_count(*p) >= 0,
            ;
            lemma_mul_inequality(l + 1, limit_count(*p), combo_count(*p));
            assert((l + 1) * combo_count(*p) == l * combo_count(*p) + combo_count(*p))
                by (nonlinear_arith);
            assert(cs[off_limits(*p) + l * combo_count(*p) + j] == g7[l * combo_count(*p) + j]);
        };
        assert forall|t: int| 0 <= t < target_count(*p) implies #[trigger] need_con_at(
            *p,
            cs,
            off_need(*p),
            t,
        ) by {
            assert(need_con_at(*p, g8, 0, t));
            assert(cs[off_need(*p) + t] == g8[t]);
        };
        assert forall|k: int| 0 <= k < cs.len() implies constraint_wf(
            #[trigger] cs[k],
            m.num_vars as int,
        ) by {
            if k < g1.len() {
                assert(cs[k] == g1[k]);
            } else if k < g1.len() + g2.len() {
                assert(cs[k] == g2[k - g1.len()]);
            } else if k < g1.len() + g2.len() + g3.len() {
                assert(cs[k] == g3[k - g1.len() - g2.len()]);
            } else if k < g1.len() + g2.len() + g3.len() + g4.len() {
                assert(cs[k] == g4[k - g1.len() - g2.len() - g3.len()]);
            } else if k < g1.len() + g2.len() + g3.len() + g4.len() + g5.len() {
                assert(cs[k] == g5[k - g1.len() - g2.len() - g3.len() - g4.len()]);
            } else if k < g1.len() + g2.len() + g3.len() + g4.len() + g5.len() + g6.len() {
                assert(cs[k] == g6[k - g1.len() - g2.len() - g3.len() - g4.len() - g5.len()]);
            } else if k < g1.len() + g2.len() + g3.len() + g4.len() + g5.len() + g6.len()
                + g7.len() {
                assert(cs[k] == g7[k - g1.len() - g2.len() - g3.len() - g4.len() - g5.len()
                    - g6.len()]);
            } else {
                assert(cs[k] == g8[k - g1.len() - g2.len() - g3.len() - g4.len() - g5.len()
                    - g6.len() - g7.len()]);
            }
        };
        assert forall|asg: Seq<i64>| satisfies(m, asg) <==> feasible_allocation(*p, asg) by {
            lemma_model_equiv(*p, m, asg);
        };
    }
    m
}

} // verus!
