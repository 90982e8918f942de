//! What a model means: when an assignment of values to its variables is a
//! solution, and what objective value it has.
//!
//! An assignment is a sequence holding one value per variable.

use vstd::prelude::*;

use crate::proto::constraint_proto::Constraint;
use crate::proto::{
    ConstraintProto, CpModelProto, CumulativeConstraintProto, IntervalConstraintProto,
    LinearExpressionProto,
};

verus! {

/// `sum coeffs[i] * values[vars[i]]` over the first `vars.len()` terms.
pub open spec fn terms_value(vars: Seq<i32>, coeffs: Seq<i64>, values: Seq<i64>) -> int
    decreases vars.len(),
{
    if vars.len() == 0 {
        0
    } else {
        let n = vars.len() - 1;
        terms_value(vars.drop_last(), coeffs, values) + coeffs[n] * values[vars[n] as int]
    }
}

/// The `k`-th `[lo, hi]` pair of a flat domain holds `v`.
pub open spec fn pair_contains(domain: Seq<i64>, k: int, v: int) -> bool {
    domain[2 * k] <= v <= domain[2 * k + 1]
}

/// One of the `[lo, hi]` pairs of a flat domain holds `v`.
pub open spec fn domain_contains(domain: Seq<i64>, v: int) -> bool {
    exists|k: int| 0 <= k < domain.len() / 2 && #[trigger] pair_contains(domain, k, v)
}

/// The value of an expression.
pub open spec fn expr_value(e: LinearExpressionProto, values: Seq<i64>) -> int {
    terms_value(e.vars@, e.coeffs@, values) + e.offset
}

/// The value of an optional expression; an absent one counts as zero.
pub open spec fn opt_expr_value(e: Option<LinearExpressionProto>, values: Seq<i64>) -> int {
    match e {
        Some(e) => expr_value(e, values),
        None => 0,
    }
}

/// The truth of a literal: `r >= 0` stands for variable `r` being nonzero,
/// `-r - 1` for variable `r` being zero.
pub open spec fn literal_value(lit: i32, values: Seq<i64>) -> bool {
    if lit >= 0 {
        values[lit as int] != 0
    } else {
        values[-lit - 1] == 0
    }
}

/// Every literal of the list is true.
pub open spec fn all_literals(lits: Seq<i32>, values: Seq<i64>) -> bool {
    forall|i: int| 0 <= i < lits.len() ==> #[trigger] literal_value(lits[i], values)
}

/// Some literal of the list is true.
pub open spec fn some_literal(lits: Seq<i32>, values: Seq<i64>) -> bool {
    exists|i: int| 0 <= i < lits.len() && #[trigger] literal_value(lits[i], values)
}

/// How many literals of the list are true.
pub open spec fn count_true(lits: Seq<i32>, values: Seq<i64>) -> int
    decreases lits.len(),
{
    if lits.len() == 0 {
        0
    } else {
        count_true(lits.drop_last(), values) + if literal_value(lits.last(), values) {
            1int
        } else {
            0int
        }
    }
}

/// The largest value among the expressions; zero for an empty list.
pub open spec fn max_value(exprs: Seq<LinearExpressionProto>, values: Seq<i64>) -> int
    decreases exprs.len(),
{
    if exprs.len() == 0 {
        0
    } else if exprs.len() == 1 {
        expr_value(exprs[0], values)
    } else {
        let m = max_value(exprs.drop_last(), values);
        let v = expr_value(exprs.last(), values);
        if m < v {
            v
        } else {
            m
        }
    }
}

/// The product of the values of the expressions; one for an empty list.
pub open spec fn product_value(exprs: Seq<LinearExpressionProto>, values: Seq<i64>) -> int
    decreases exprs.len(),
{
    if exprs.len() == 0 {
        1
    } else {
        product_value(exprs.drop_last(), values) * expr_value(exprs.last(), values)
    }
}

/// The interval that constraint `j` of the model declares, if it declares one.
pub open spec fn interval_at(m: CpModelProto, j: int) -> Option<IntervalConstraintProto> {
    if 0 <= j < m.constraints@.len() {
        match m.constraints@[j].constraint {
            Some(Constraint::Interval(iv)) => Some(iv),
            _ => None,
        }
    } else {
        None
    }
}

/// Interval `j` is present: its constraint's enforcement literals all hold.
pub open spec fn interval_present(m: CpModelProto, j: int, values: Seq<i64>) -> bool {
    0 <= j < m.constraints@.len() && all_literals(
        m.constraints@[j].enforcement_literal@,
        values,
    )
}

/// The start of interval `j` (zero when `j` is not an interval).
pub open spec fn interval_start(m: CpModelProto, j: int, values: Seq<i64>) -> int {
    match interval_at(m, j) {
        Some(iv) => opt_expr_value(iv.start, values),
        None => 0,
    }
}

/// The end of interval `j` (zero when `j` is not an interval).
pub open spec fn interval_end(m: CpModelProto, j: int, values: Seq<i64>) -> int {
    match interval_at(m, j) {
        Some(iv) => opt_expr_value(iv.end, values),
        None => 0,
    }
}

/// Two present intervals do not overlap: one ends before the other starts.
pub open spec fn disjoint(m: CpModelProto, i: int, j: int, values: Seq<i64>) -> bool {
    interval_present(m, i, values) && interval_present(m, j, values) ==> (interval_end(
        m,
        i,
        values,
    ) <= interval_start(m, j, values) || interval_end(m, j, values) <= interval_start(
        m,
        i,
        values,
    ))
}

/// Interval `j` is present and covers time `t`: `start <= t < end`.
pub open spec fn covers(m: CpModelProto, j: int, t: int, values: Seq<i64>) -> bool {
    interval_present(m, j, values) && interval_start(m, j, values) <= t < interval_end(
        m,
        j,
        values,
    )
}

/// The total demand at time `t` of the first `intervals.len()` intervals.
pub open spec fn load_at(
    m: CpModelProto,
    intervals: Seq<i32>,
    demands: Seq<LinearExpressionProto>,
    t: int,
    values: Seq<i64>,
) -> int
    decreases intervals.len(),
{
    if intervals.len() == 0 {
        0
    } else {
        let n = intervals.len() - 1;
        load_at(m, intervals.drop_last(), demands, t, values) + if covers(
            m,
            intervals[n] as int,
            t,
            values,
        ) {
            expr_value(demands[n], values)
        } else {
            0
        }
    }
}

/// The intervals at the listed constraint indices are pairwise disjoint.
pub open spec fn no_overlap_holds(m: CpModelProto, intervals: Seq<i32>, values: Seq<i64>) -> bool {
    forall|i: int, j: int|
        0 <= i < j < intervals.len() ==> #[trigger] disjoint(
            m,
            intervals[i] as int,
            intervals[j] as int,
            values,
        )
}

/// The expressions take pairwise distinct values.
pub open spec fn all_different_holds(exprs: Seq<LinearExpressionProto>, values: Seq<i64>) -> bool {
    forall|i: int, j: int|
        0 <= i < j < exprs.len() ==> #[trigger] expr_value(exprs[i], values) != #[trigger] expr_value(
            exprs[j],
            values,
        )
}

/// The capacity is nonnegative and no point in time carries more demand than it.
pub open spec fn cumulative_holds(m: CpModelProto, c: CumulativeConstraintProto, values: Seq<i64>) -> bool {
    &&& opt_expr_value(c.capacity, values) >= 0
    &&& forall|t: int|
        #[trigger] load_at(m, c.intervals@, c.demands@, t, values) <= opt_expr_value(
            c.capacity,
            values,
        )
}

/// `start + size == end` and `size >= 0`.
pub open spec fn interval_holds(iv: IntervalConstraintProto, values: Seq<i64>) -> bool {
    &&& opt_expr_value(iv.start, values) + opt_expr_value(iv.size, values) == opt_expr_value(
        iv.end,
        values,
    )
    &&& opt_expr_value(iv.size, values) >= 0
}

/// What a constraint requires once its enforcement literals hold.
pub open spec fn body_holds(m: CpModelProto, c: Option<Constraint>, values: Seq<i64>) -> bool {
    match c {
        None => true,
        Some(Constraint::BoolOr(b)) => some_literal(b.literals@, values),
        Some(Constraint::BoolAnd(b)) => all_literals(b.literals@, values),
        Some(Constraint::AtMostOne(b)) => count_true(b.literals@, values) <= 1,
        Some(Constraint::ExactlyOne(b)) => count_true(b.literals@, values) == 1,
        Some(Constraint::BoolXor(b)) => count_true(b.literals@, values) % 2 == 1,
        Some(Constraint::LinMax(p)) => opt_expr_value(p.target, values) == max_value(
            p.exprs@,
            values,
        ),
        Some(Constraint::IntProd(p)) => opt_expr_value(p.target, values) == product_value(
            p.exprs@,
            values,
        ),
        Some(Constraint::Linear(l)) => domain_contains(
            l.domain@,
            terms_value(l.vars@, l.coeffs@, values),
        ),
        Some(Constraint::AllDiff(d)) => all_different_holds(d.exprs@, values),
        Some(Constraint::Interval(iv)) => interval_holds(iv, values),
        Some(Constraint::NoOverlap(n)) => no_overlap_holds(m, n.intervals@, values),
        Some(Constraint::Cumulative(c)) => cumulative_holds(m, c, values),
    }
}

/// A constraint holds: if all its enforcement literals are true, its body holds.
pub open spec fn constraint_holds(m: CpModelProto, c: ConstraintProto, values: Seq<i64>) -> bool {
    all_literals(c.enforcement_literal@, values) ==> body_holds(m, c.constraint, values)
}

/// Every variable takes a value of its domain.
pub open spec fn within_domains(m: CpModelProto, values: Seq<i64>) -> bool {
    &&& values.len() == m.variables@.len()
    &&& forall|i: int|
        0 <= i < values.len() ==> #[trigger] domain_contains(
            m.variables@[i].domain@,
            values[i] as int,
        )
}

/// The assignment is a solution: every value lies in its domain and every
/// constraint holds.
pub open spec fn feasible(m: CpModelProto, values: Seq<i64>) -> bool {
    &&& within_domains(m, values)
    &&& forall|c: int|
        0 <= c < m.constraints@.len() ==> #[trigger] constraint_holds(
            m,
            m.constraints@[c],
            values,
        )
}

/// The quantity the solver minimises; zero for a model without objective.
pub open spec fn objective_terms(m: CpModelProto, values: Seq<i64>) -> int {
    match m.objective {
        Some(o) => terms_value(o.vars@, o.coeffs@, values),
        None => 0,
    }
}

/// The objective value a response reports for an assignment:
/// `scaling_factor * (terms + offset)`, a zero scaling factor counting as one.
pub open spec fn reported_objective(m: CpModelProto, values: Seq<i64>) -> int {
    match m.objective {
        Some(o) => (if o.scaling_factor == 0 {
            1
        } else {
            o.scaling_factor as int
        }) * (objective_terms(m, values) + o.offset),
        None => 0,
    }
}

/// `values` is a solution no other solution beats on the objective.
pub open spec fn optimal(m: CpModelProto, values: Seq<i64>) -> bool {
    &&& feasible(m, values)
    &&& forall|other: Seq<i64>| #[trigger]
        feasible(m, other) ==> objective_terms(m, values) <= objective_terms(m, other)
}

} // verus!
