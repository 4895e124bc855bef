//! Linear optimization models: variables, linear constraints and a linear
//! objective, all over fixed-point integer coefficients, together with a
//! verified evaluator that decides whether an assignment satisfies a model.

use vstd::prelude::*;

verus! {

/// Comparison direction of a linear constraint.
#[derive(Clone, Copy, Debug, PartialEq, Eq, Structural)]
pub enum CmpOp {
    Le,
    Ge,
    Eq,
}

/// One linear term: `coef` times variable number `var`.
#[derive(Clone, Copy, Debug, PartialEq, Eq, Structural)]
pub struct LinTerm {
    pub var: usize,
    pub coef: i64,
}

/// A linear constraint: the sum of its terms compared against `rhs`.
#[derive(Clone, Debug, PartialEq)]
pub struct Constraint {
    pub terms: Vec<LinTerm>,
    pub op: CmpOp,
    pub rhs: i64,
}

/// A model ready to hand to a linear solver: `num_vars` decision
/// variables, a linear objective to maximize, and the constraint list.
#[derive(Clone, Debug, PartialEq)]
pub struct Model {
    pub num_vars: usize,
    pub objective: Vec<LinTerm>,
    pub constraints: Vec<Constraint>,
}

/// Largest variable count a well-formed model may declare.
pub const MAX_VARS: usize = 2_000_000;

/// Largest term count a well-formed constraint may hold.
pub const MAX_TERMS: usize = 2_000_001;

/// Largest coefficient magnitude a well-formed constraint may hold.
pub const MAX_COEF: i64 = 1_000_000;

// ---------------------------------------------------------------------
// Finite sums
// ---------------------------------------------------------------------

/// The sum of `f(0) + f(1) + ... + f(n - 1)`.
pub open spec fn sum_of(n: nat, f: spec_fn(int) -> int) -> int
    decreases n,
{
    if n == 0 {
        0
    } else {
        sum_of((n - 1) as nat, f) + f(n - 1)
    }
}

/// Functions equal on `[0, n)` have equal sums.
pub proof fn lemma_sum_of_ext(n: nat, f: spec_fn(int) -> int, g: spec_fn(int) -> int)
    requires
        forall|i: int| 0 <= i < n ==> #[trigger] f(i) == g(i),
    ensures
        sum_of(n, f) == sum_of(n, g),
    decreases n,
{
    if n > 0 {
        lemma_sum_of_ext((n - 1) as nat, f, g);
    }
}

/// Negating each term negates the sum.
pub proof fn lemma_sum_of_neg(n: nat, f: spec_fn(int) -> int, g: spec_fn(int) -> int)
    requires
        forall|i: int| 0 <= i < n ==> #[trigger] g(i) == -f(i),
    ensures
        sum_of(n, g) == -sum_of(n, f),
    decreases n,
{
    if n > 0 {
        lemma_sum_of_neg((n - 1) as nat, f, g);
    }
}

/// Peeling the first term off a sum.
pub proof fn lemma_sum_of_shift(n: nat, f: spec_fn(int) -> int, g: spec_fn(int) -> int)
    requires
        forall|i: int| 0 <= i < n ==> #[trigger] g(i) == f(i + 1),
    ensures
        sum_of((n + 1) as nat, f) == f(0) + sum_of(n, g),
    decreases n,
{
    if n == 0 {
        assert(sum_of(1, f) == sum_of(0, f) + f(0));
    } else {
        lemma_sum_of_shift((n - 1) as nat, f, g);
        assert(g(n - 1) == f(n as int));
        assert(sum_of((n + 1) as nat, f) == sum_of(n, f) + f(n as int));
        assert(sum_of(n, g) == sum_of((n - 1) as nat, g) + g(n - 1));
    }
}

/// A sum of all-zero terms is zero.
pub proof fn lemma_sum_of_zero(n: nat, f: spec_fn(int) -> int)
    requires
        forall|i: int| 0 <= i < n ==> #[trigger] f(i) == 0,
    ensures
        sum_of(n, f) == 0,
    decreases n,
{
    if n > 0 {
        lemma_sum_of_zero((n - 1) as nat, f);
    }
}

/// A sum of non-negative terms is non-negative.
pub proof fn lemma_sum_of_nonneg(n: nat, f: spec_fn(int) -> int)
    requires
        forall|i: int| 0 <= i < n ==> #[trigger] f(i) >= 0,
    ensures
        sum_of(n, f) >= 0,
    decreases n,
{
    if n > 0 {
        lemma_sum_of_nonneg((n - 1) as nat, f);
    }
}

/// A zero sum of non-negative terms has every term zero.
pub proof fn lemma_sum_of_zero_each(n: nat, f: spec_fn(int) -> int)
    requires
        forall|i: int| 0 <= i < n ==> #[trigger] f(i) >= 0,
        sum_of(n, f) == 0,
    ensures
        forall|i: int| 0 <= i < n ==> #[trigger] f(i) == 0,
    decreases n,
{
    if n > 0 {
        lemma_sum_of_nonneg((n - 1) as nat, f);
        lemma_sum_of_zero_each((n - 1) as nat, f);
    }
}

// ---------------------------------------------------------------------
// Evaluation
// ---------------------------------------------------------------------

/// The value a term contributes under an assignment.  Terms that name a
/// variable outside the assignment contribute nothing.
pub open spec fn term_val(t: LinTerm, asg: Seq<i64>) -> int {
    if 0 <= t.var < asg.len() {
        t.coef * asg[t.var as int]
    } else {
        0
    }
}

/// The value of a term list under an assignment.
pub open spec fn eval_terms(ts: Seq<LinTerm>, asg: Seq<i64>) -> int
    decreases ts.len(),
{
    if ts.len() == 0 {
        0
    } else {
        eval_terms(ts.drop_last(), asg) + term_val(ts.last(), asg)
    }
}

/// Evaluation is the sum of the per-term values.
pub proof fn lemma_eval_terms_is_sum(ts: Seq<LinTerm>, asg: Seq<i64>)
    ensures
        eval_terms(ts, asg) == sum_of(ts.len(), |m: int| term_val(ts[m], asg)),
    decreases ts.len(),
{
    if ts.len() > 0 {
        lemma_eval_terms_is_sum(ts.drop_last(), asg);
        lemma_sum_of_ext(
            (ts.len() - 1) as nat,
            |m: int| term_val(ts.drop_last()[m], asg),
            |m: int| term_val(ts[m], asg),
        );
    }
}

/// Whether an assignment satisfies one constraint.
pub open spec fn constraint_ok(c: Constraint, asg: Seq<i64>) -> bool {
    let v = eval_terms(c.terms@, asg);
    match c.op {
        CmpOp::Le => v <= c.rhs,
        CmpOp::Ge => v >= c.rhs,
        CmpOp::Eq => v == c.rhs,
    }
}

/// Whether an assignment satisfies the whole model.
pub open spec fn satisfies(m: Model, asg: Seq<i64>) -> bool {
    &&& asg.len() == m.num_vars
    &&& forall|k: int| 0 <= k < m.constraints@.len() ==> constraint_ok(
        #[trigger] m.constraints@[k],
        asg,
    )
}

// ---------------------------------------------------------------------
// Well-formedness
// ---------------------------------------------------------------------

/// The constraint's terms are few enough, with small coefficients, over
/// declared variables only.
pub open spec fn constraint_wf(c: Constraint, nv: int) -> bool {
    &&& c.terms@.len() <= MAX_TERMS
    &&& forall|x: int| 0 <= x < c.terms@.len() ==> (#[trigger] c.terms@[x]).var < nv
        && -MAX_COEF <= c.terms@[x].coef <= MAX_COEF
}

/// Every constraint of the model is well formed; the variable count is
/// bounded.  Keeps all evaluation arithmetic inside `i128`.
pub open spec fn model_wf(m: Model) -> bool {
    &&& m.num_vars <= MAX_VARS
    &&& forall|k: int| 0 <= k < m.constraints@.len() ==> constraint_wf(
        #[trigger] m.constraints@[k],
        m.num_vars as int,
    )
}

// ---------------------------------------------------------------------
// Deciding whether an assignment satisfies a model
// ---------------------------------------------------------------------

/// Evaluates one well-formed constraint's terms over an assignment of the
/// model's variables.
fn eval_constraint(c: &Constraint, asg: &Vec<i64>) -> (v: i128)
    requires
        constraint_wf(*c, asg@.len() as int),
    ensures
        v == eval_terms(c.terms@, asg@),
{
    // Accumulator bound per term: 2 to the 92nd, above MAX_COEF times any
    // i64 magnitude, while MAX_TERMS of them still fit an i128 easily.
    let n: usize = c.terms.len();
    let mut acc: i128 = 0;
    let mut x: usize = 0;
    proof {
        assert(c.terms@.take(0) =~= Seq::<LinTerm>::empty());
    }
    while x < n
        invariant
            n == c.terms@.len(),
            x <= n,
            constraint_wf(*c, asg@.len() as int),
            acc == eval_terms(c.terms@.take(x as int), asg@),
            -(x as int) * 0x10_0000_0000_0000_0000_000000 <= acc <= (x as int)
                * 0x10_0000_0000_0000_0000_000000,
        decreases n - x,
    {
        let t = c.terms[x];
        proof {
            assert(-0x10_0000_0000_0000_0000_000000 <= (t.coef as int) * (asg@[t.var as int] as int)
                <= 0x10_0000_0000_0000_0000_000000) by (nonlinear_arith)
                requires
                    -MAX_COEF <= t.coef <= MAX_COEF,
                    i64::MIN <= asg@[t.var as int] <= i64::MAX,
            ;
        }
        let prod: i128 = (t.coef as i128) * (asg[t.var] as i128);
        proof {
            assert((x as int + 1) * 0x10_0000_0000_0000_0000_000000 == (x as int)
                * 0x10_0000_0000_0000_0000_000000 + 0x10_0000_0000_0000_0000_000000)
                by (nonlinear_arith);
            assert((x as int) * 0x10_0000_0000_0000_0000_000000 <= (MAX_TERMS as int)
                * 0x10_0000_0000_0000_0000_000000) by (nonlinear_arith)
                requires
                    0 <= x as int <= MAX_TERMS as int,
            ;
        }
        acc = acc + prod;
        proof {
            assert(c.terms@.take(x as int + 1).drop_last() =~= c.terms@.take(x as int));
            assert(c.terms@.take(x as int + 1).last() == c.terms@[x as int]);
            assert(term_val(c.terms@[x as int], asg@) == prod);
        }
        x = x + 1;
    }
    proof {
        assert(c.terms@.take(n as int) =~= c.terms@);
    }
    acc
}

/// Decides whether `asg` satisfies the model: right length, and every
/// constraint holds exactly.
pub fn check_solution(m: &Model, asg: &Vec<i64>) -> (r: bool)
    requires
        model_wf(*m),
    ensures
        r == satisfies(*m, asg@),
{
    if asg.len() != m.num_vars {
        return false;
    }
    let nc: usize = m.constraints.len();
    let mut k: usize = 0;
    while k < nc
        invariant
            model_wf(*m),
            nc == m.constraints@.len(),
            k <= nc,
            asg@.len() == m.num_vars,
            forall|q: int| 0 <= q < k ==> constraint_ok(#[trigger] m.constraints@[q], asg@),
        decreases nc - k,
    {
        let c = &m.constraints[k];
        let v: i128 = eval_constraint(c, asg);
        let rhs: i128 = c.rhs as i128;
        let ok: bool = match c.op {
            CmpOp::Le => v <= rhs,
            CmpOp::Ge => v >= rhs,
            CmpOp::Eq => v == rhs,
        };
        if !ok {
            assert(!constraint_ok(m.constraints@[k as int], asg@));
            return false;
        }
        k = k + 1;
    }
    true
}

// ---------------------------------------------------------------------
// Constraint shapes
// ---------------------------------------------------------------------

/// The constraint has exactly one term, `coef` times variable `v`.
pub open spec fn single_term_con(c: Constraint, v: int, coef: int, op: CmpOp, rhs: int) -> bool {
    &&& c.terms@.len() == 1
    &&& c.terms@[0].var as int == v
    &&& c.terms@[0].coef as int == coef
    &&& c.op == op
    &&& c.rhs as int == rhs
}

/// The constraint has no terms at all (its value is zero).
pub open spec fn empty_con(c: Constraint, op: CmpOp, rhs: int) -> bool {
    &&& c.terms@.len() == 0
    &&& c.op == op
    &&& c.rhs as int == rhs
}

/// A one-term constraint evaluates to its scaled variable.
pub proof fn lemma_eval_single(c: Constraint, v: int, coef: int, op: CmpOp, rhs: int, asg: Seq<i64>)
    requires
        single_term_con(c, v, coef, op, rhs),
        0 <= v < asg.len(),
    ensures
        eval_terms(c.terms@, asg) == coef * asg[v],
{
    assert(c.terms@.drop_last() =~= Seq::<LinTerm>::empty());
    assert(eval_terms(Seq::<LinTerm>::empty(), asg) == 0);
    assert(c.terms@.last() == c.terms@[0]);
}

/// An empty constraint evaluates to zero.
pub proof fn lemma_eval_empty(c: Constraint, op: CmpOp, rhs: int, asg: Seq<i64>)
    requires
        empty_con(c, op, rhs),
    ensures
        eval_terms(c.terms@, asg) == 0,
{
}

} // verus!
