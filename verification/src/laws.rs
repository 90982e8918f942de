//! Properties of the library that span several functions, proved.

use vstd::prelude::*;

use core::ops::RangeInclusive;

use crate::builder::{
    adds_constraint, expr_is, exprs_are, flat_ranges, interval_indices, last_kind, literals_of,
    objective_is, opt_expr_is, same_but_constraint, terms_domain, views_of, BoolVar, IntVar,
    IntervalVar,
};
use crate::expr::{
    can_sum, can_weigh, linear_views, sum_views, weighted_views, IntoLinearExpr, LinearExpr,
    LinearExprView,
};
use crate::proto::constraint_proto::Constraint;
use crate::proto::{CpModelProto, CpSolverResponse, CpSolverStatus, LinearConstraintProto};
use crate::semantics::{
    count_true, covers, disjoint, domain_contains, expr_value, feasible, interval_end,
    interval_present, interval_start, literal_value, load_at, max_value, no_overlap_holds,
    objective_terms, optimal, pair_contains, product_value, reported_objective, terms_value,
    within_domains,
};
use crate::proto::LinearExpressionProto;
use crate::solver::{answers, lemma_lex_less_total, wanted};
use crate::validity::{interval_ref_ok, lemma_terms_value_bounds, literal_var, terms_ok};

verus! {

// ---------------------------------------------------------------------------
// Literals
// ---------------------------------------------------------------------------

/// Negating a literal (`!b`, which maps `l` to `-1 - l`) keeps its variable,
/// flips its truth on every assignment, and undoes itself.
pub proof fn lemma_negated_literal(l: i32, values: Seq<i64>)
    ensures
        literal_var((-1 - l) as i32) == literal_var(l),
        literal_value((-1 - l) as i32, values) == !literal_value(l, values),
        -1 - (-1 - l) == l,
{
}

/// `!` on a boolean variable undoes itself: if `nb` is `!b` and `nnb` is
/// `!nb`, then `nnb` is `b`. `!b` names the same variable as `b`, and is a
/// negation exactly when `b` is not.
pub proof fn lemma_double_negation(b: BoolVar, nb: BoolVar, nnb: BoolVar)
    requires
        nb.literal() == -1 - b.literal(),
        nnb.literal() == -1 - nb.literal(),
    ensures
        nnb == b,
        literal_var(nb.literal()) == literal_var(b.literal()),
        nb.literal() < 0 <==> b.literal() >= 0,
{
    BoolVar::lemma_literal_determines(nnb, b);
}

// ---------------------------------------------------------------------------
// Expressions
// ---------------------------------------------------------------------------

/// The terms' value depends on the coefficients only through those paired
/// with a variable.
proof fn lemma_terms_coeff_prefix(vars: Seq<i32>, c1: Seq<i64>, c2: Seq<i64>, values: Seq<i64>)
    requires
        vars.len() <= c1.len(),
        vars.len() <= c2.len(),
        forall|i: int| 0 <= i < vars.len() ==> c1[i] == c2[i],
    ensures
        terms_value(vars, c1, values) == terms_value(vars, c2, values),
    decreases vars.len(),
{
    if vars.len() > 0 {
        lemma_terms_coeff_prefix(vars.drop_last(), c1, c2, values);
    }
}

/// The terms of two lists, side by side, add up.
proof fn lemma_terms_concat(
    v1: Seq<i32>,
    c1: Seq<i64>,
    v2: Seq<i32>,
    c2: Seq<i64>,
    values: Seq<i64>,
)
    requires
        v1.len() == c1.len(),
        v2.len() <= c2.len(),
    ensures
        terms_value(v1 + v2, c1 + c2, values) == terms_value(v1, c1, values) + terms_value(
            v2,
            c2,
            values,
        ),
    decreases v2.len(),
{
    if v2.len() == 0 {
        assert(v1 + v2 =~= v1);
        lemma_terms_coeff_prefix(v1, c1 + c2, c1, values);
    } else {
        let n = v2.len() - 1;
        lemma_terms_concat(v1, c1, v2.drop_last(), c2, values);
        assert((v1 + v2).drop_last() =~= v1 + v2.drop_last());
        assert((c1 + c2)[v1.len() + n] == c2[n]);
        assert((v1 + v2)[v1.len() + n] == v2[n]);
    }
}

/// Multiplying every coefficient by `k` multiplies the terms' value by `k`.
proof fn lemma_terms_scaled(vars: Seq<i32>, coeffs: Seq<i64>, k: i64, values: Seq<i64>)
    requires
        vars.len() <= coeffs.len(),
        forall|i: int| 0 <= i < coeffs.len() ==> i64::MIN <= #[trigger] coeffs[i] * k <= i64::MAX,
    ensures
        terms_value(vars, coeffs.map_values(|c: i64| (c * k) as i64), values) == k * terms_value(
            vars,
            coeffs,
            values,
        ),
    decreases vars.len(),
{
    if vars.len() > 0 {
        let n = vars.len() - 1;
        lemma_terms_scaled(vars.drop_last(), coeffs, k, values);
        let c = coeffs[n] as int;
        let x = values[vars[n] as int] as int;
        let t = terms_value(vars.drop_last(), coeffs, values);
        assert(coeffs[n] * k == c * k);
        assert((c * k) * x + k * t == k * (t + c * x)) by (nonlinear_arith);
    }
}

/// Negating every coefficient negates the terms' value.
proof fn lemma_terms_negated(vars: Seq<i32>, coeffs: Seq<i64>, values: Seq<i64>)
    requires
        vars.len() <= coeffs.len(),
        forall|i: int| 0 <= i < coeffs.len() ==> #[trigger] coeffs[i] != i64::MIN,
    ensures
        terms_value(vars, coeffs.map_values(|c: i64| (-c) as i64), values) == -terms_value(
            vars,
            coeffs,
            values,
        ),
    decreases vars.len(),
{
    if vars.len() > 0 {
        let n = vars.len() - 1;
        lemma_terms_negated(vars.drop_last(), coeffs, values);
        let c = coeffs[n] as int;
        let x = values[vars[n] as int] as int;
        assert((-c) * x == -(c * x)) by (nonlinear_arith);
    }
}

/// `x + y` has the value of `x` plus that of `y`.
pub proof fn lemma_plus_value(x: LinearExprView, y: LinearExprView, values: Seq<i64>)
    requires
        x.aligned(),
        y.aligned(),
        x.can_add(y),
    ensures
        x.plus(y).aligned(),
        x.plus(y).value(values) == x.value(values) + y.value(values),
{
    lemma_terms_concat(x.vars, x.coeffs, y.vars, y.coeffs, values);
}

/// `-x` has the negated value of `x`.
pub proof fn lemma_negated_value(x: LinearExprView, values: Seq<i64>)
    requires
        x.aligned(),
        x.can_negate(),
    ensures
        x.negated().aligned(),
        x.negated().value(values) == -x.value(values),
{
    lemma_terms_negated(x.vars, x.coeffs, values);
}

/// `x - y` has the value of `x` minus that of `y`.
pub proof fn lemma_minus_value(x: LinearExprView, y: LinearExprView, values: Seq<i64>)
    requires
        x.aligned(),
        y.aligned(),
        x.can_sub(y),
    ensures
        x.minus(y).aligned(),
        x.minus(y).value(values) == x.value(values) - y.value(values),
{
    lemma_negated_value(y, values);
    lemma_plus_value(x, y.negated(), values);
}

/// `x * k` has `k` times the value of `x`.
pub proof fn lemma_scaled_value(x: LinearExprView, k: i64, values: Seq<i64>)
    requires
        x.aligned(),
        x.can_scale(k),
    ensures
        x.scaled(k).aligned(),
        x.scaled(k).value(values) == k * x.value(values),
{
    lemma_terms_scaled(x.vars, x.coeffs, k, values);
    let t = terms_value(x.vars, x.coeffs, values);
    assert(k * t + x.offset * k == k * (t + x.offset)) by (nonlinear_arith);
}

/// `vs[0].value + vs[1].value + ...`.
pub open spec fn sum_of_values(vs: Seq<LinearExprView>, values: Seq<i64>) -> int
    decreases vs.len(),
{
    if vs.len() == 0 {
        0
    } else {
        sum_of_values(vs.drop_last(), values) + vs.last().value(values)
    }
}

/// The value of a sum is the sum of the values.
pub proof fn lemma_sum_value(vs: Seq<LinearExprView>, values: Seq<i64>)
    requires
        forall|i: int| 0 <= i < vs.len() ==> #[trigger] vs[i].aligned(),
        can_sum(vs),
    ensures
        sum_views(vs).aligned(),
        sum_views(vs).value(values) == sum_of_values(vs, values),
    decreases vs.len(),
{
    if vs.len() > 0 {
        assert forall|i: int| 0 <= i < vs.drop_last().len() implies #[trigger] vs.drop_last()[i].aligned() by {
            assert(vs[i].aligned());
        }
        lemma_sum_value(vs.drop_last(), values);
        assert(vs[vs.len() - 1].aligned());
        lemma_plus_value(sum_views(vs.drop_last()), vs.last(), values);
    }
}

/// An integer variable, as an expression, has the variable's value.
pub proof fn lemma_int_var_value(x: IntVar, values: Seq<i64>)
    ensures
        x.linear_view().aligned(),
        x.linear_view().value(values) == values[x.index() as int],
{
    reveal_with_fuel(terms_value, 2);
}

/// A literal over a 0/1 variable, as an expression, is 1 when the literal is
/// true and 0 when it is false; in particular `!b` stands for `1 - b`.
pub proof fn lemma_bool_var_value(b: BoolVar, values: Seq<i64>)
    requires
        0 <= values[literal_var(b.literal())] <= 1,
    ensures
        b.linear_view().aligned(),
        b.linear_view().value(values) == if literal_value(b.literal(), values) {
            1int
        } else {
            0int
        },
{
    reveal_with_fuel(terms_value, 2);
    let l = b.literal();
    if l >= 0 {
        assert(b.linear_view() == LinearExprView::term(l, 1, 0));
    } else {
        let r = (-1 - l) as i32;
        assert(r == literal_var(l));
        assert(b.linear_view() == LinearExprView::term(r, -1i64, 1i64));
        assert(b.linear_view().value(values) == 1 - values[r as int]);
    }
}

// ---------------------------------------------------------------------------
// What the posted constraints mean
// ---------------------------------------------------------------------------

/// Terms within `i64` lie in `terms_domain(lo, hi)` exactly when they lie in
/// `[lo, hi]`.
pub proof fn lemma_terms_domain_meaning(lo: int, hi: int, t: int)
    requires
        i64::MIN <= t <= i64::MAX,
    ensures
        domain_contains(terms_domain(lo, hi), t) <==> lo <= t <= hi,
{
    let d = terms_domain(lo, hi);
    if lo <= t <= hi {
        assert(pair_contains(d, 0, t));
    }
    if domain_contains(d, t) {
        let k = choose|k: int| 0 <= k < d.len() / 2 && #[trigger] pair_contains(d, k, t);
        assert(k == 0);
    }
}

/// `add_linear_constraint(e, lo..=hi)` posts a constraint that holds exactly
/// when `lo <= e <= hi`, on every assignment within the domains of a model in
/// which the constraint is well formed.
pub proof fn lemma_linear_constraint_meaning(
    m: CpModelProto,
    l: LinearConstraintProto,
    e: LinearExprView,
    lo: i64,
    hi: i64,
    values: Seq<i64>,
)
    requires
        l.vars@ == e.vars,
        l.coeffs@ == e.coeffs,
        l.domain@ == terms_domain(lo - e.offset, hi - e.offset),
        terms_ok(m, l.vars@, l.coeffs@),
        within_domains(m, values),
    ensures
        domain_contains(l.domain@, terms_value(l.vars@, l.coeffs@, values)) <==> lo <= e.value(
            values,
        ) <= hi,
{
    lemma_terms_value_bounds(m, l.vars@, l.coeffs@, values);
    lemma_terms_domain_meaning(lo - e.offset, hi - e.offset, terms_value(l.vars@, l.coeffs@, values));
}

/// `add_le(lhs, rhs)` posts a constraint that holds exactly when
/// `lhs - rhs` lies in `i64::MIN..=0`, on every assignment within the domains
/// of a model in which it is well formed: when `lhs <= rhs` and the difference
/// does not fall below `i64::MIN`.
pub proof fn lemma_le_meaning(
    m: CpModelProto,
    l: LinearConstraintProto,
    lhs: LinearExprView,
    rhs: LinearExprView,
    values: Seq<i64>,
)
    requires
        lhs.aligned(),
        rhs.aligned(),
        lhs.can_sub(rhs),
        l.vars@ == lhs.minus(rhs).vars,
        l.coeffs@ == lhs.minus(rhs).coeffs,
        l.domain@ == terms_domain(i64::MIN - lhs.minus(rhs).offset, 0 - lhs.minus(rhs).offset),
        terms_ok(m, l.vars@, l.coeffs@),
        within_domains(m, values),
    ensures
        domain_contains(l.domain@, terms_value(l.vars@, l.coeffs@, values)) <==> (i64::MIN
            <= lhs.value(values) - rhs.value(values) && lhs.value(values) <= rhs.value(values)),
{
    lemma_minus_value(lhs, rhs, values);
    lemma_terms_value_bounds(m, l.vars@, l.coeffs@, values);
    lemma_terms_domain_meaning(
        i64::MIN - lhs.minus(rhs).offset,
        0 - lhs.minus(rhs).offset,
        terms_value(l.vars@, l.coeffs@, values),
    );
}

/// `add_ge(lhs, rhs)` posts a constraint that holds exactly when
/// `lhs - rhs` lies in `0..=i64::MAX`, on every assignment within the domains
/// of a model in which it is well formed: when `lhs >= rhs` and the difference
/// does not exceed `i64::MAX`.
pub proof fn lemma_ge_meaning(
    m: CpModelProto,
    l: LinearConstraintProto,
    lhs: LinearExprView,
    rhs: LinearExprView,
    values: Seq<i64>,
)
    requires
        lhs.aligned(),
        rhs.aligned(),
        lhs.can_sub(rhs),
        l.vars@ == lhs.minus(rhs).vars,
        l.coeffs@ == lhs.minus(rhs).coeffs,
        l.domain@ == terms_domain(0 - lhs.minus(rhs).offset, i64::MAX - lhs.minus(rhs).offset),
        terms_ok(m, l.vars@, l.coeffs@),
        within_domains(m, values),
    ensures
        domain_contains(l.domain@, terms_value(l.vars@, l.coeffs@, values)) <==> (lhs.value(values)
            >= rhs.value(values) && lhs.value(values) - rhs.value(values) <= i64::MAX),
{
    lemma_minus_value(lhs, rhs, values);
    lemma_terms_value_bounds(m, l.vars@, l.coeffs@, values);
    lemma_terms_domain_meaning(
        0 - lhs.minus(rhs).offset,
        i64::MAX - lhs.minus(rhs).offset,
        terms_value(l.vars@, l.coeffs@, values),
    );
}

/// `add_eq(lhs, rhs)` posts a constraint that holds exactly when
/// `lhs == rhs`, on every assignment within the domains of a model in which it
/// is well formed.
pub proof fn lemma_eq_meaning(
    m: CpModelProto,
    l: LinearConstraintProto,
    lhs: LinearExprView,
    rhs: LinearExprView,
    values: Seq<i64>,
)
    requires
        lhs.aligned(),
        rhs.aligned(),
        lhs.can_sub(rhs),
        l.vars@ == lhs.minus(rhs).vars,
        l.coeffs@ == lhs.minus(rhs).coeffs,
        l.domain@ == terms_domain(0 - lhs.minus(rhs).offset, 0 - lhs.minus(rhs).offset),
        terms_ok(m, l.vars@, l.coeffs@),
        within_domains(m, values),
    ensures
        domain_contains(l.domain@, terms_value(l.vars@, l.coeffs@, values)) <==> lhs.value(values)
            == rhs.value(values),
{
    lemma_minus_value(lhs, rhs, values);
    lemma_terms_value_bounds(m, l.vars@, l.coeffs@, values);
    lemma_terms_domain_meaning(
        0 - lhs.minus(rhs).offset,
        0 - lhs.minus(rhs).offset,
        terms_value(l.vars@, l.coeffs@, values),
    );
}

/// An optional interval is the plain interval enforced by its presence
/// literal. From one model, `new_optional_interval_var(start, size, end, p)`
/// gives the same handle as `new_interval_var(start, size, end)` followed by
/// `only_enforce_if` on that interval's constraint with `[p]`, and the two
/// models agree: same variables, objective and earlier constraints, and a new
/// interval constraint with the same name, the enforcement `[p]` and the same
/// start, size and end.
pub proof fn lemma_optional_interval_is_enforced_interval(
    old: CpModelProto,
    m1: CpModelProto,
    iv1: IntervalVar,
    m2: CpModelProto,
    iv2: IntervalVar,
    m3: CpModelProto,
    c: crate::builder::Constraint,
    p: BoolVar,
    start: LinearExprView,
    size: LinearExprView,
    end: LinearExprView,
)
    requires
        adds_constraint(old, m1, seq![p.literal()]),
        last_kind(m1) matches Some(Constraint::Interval(q)) && opt_expr_is(q.start, start)
            && opt_expr_is(q.size, size) && opt_expr_is(q.end, end),
        iv1.index() == old.constraints@.len(),
        adds_constraint(old, m2, Seq::empty()),
        last_kind(m2) matches Some(Constraint::Interval(q)) && opt_expr_is(q.start, start)
            && opt_expr_is(q.size, size) && opt_expr_is(q.end, end),
        iv2.index() == old.constraints@.len(),
        c.index() == iv2.index(),
        same_but_constraint(m2, m3, c.index() as int),
        m3.constraints@[c.index() as int].name == m2.constraints@[c.index() as int].name,
        m3.constraints@[c.index() as int].enforcement_literal@
            == m2.constraints@[c.index() as int].enforcement_literal@ + literals_of(seq![p]),
    ensures
        iv1 == iv2,
        m3.name == m1.name,
        m3.variables == m1.variables,
        m3.objective == m1.objective,
        m3.constraints@.len() == m1.constraints@.len(),
        forall|i: int| 0 <= i < old.constraints@.len() ==> m3.constraints@[i] == m1.constraints@[i],
        m3.constraints@.last().name@ == m1.constraints@.last().name@,
        m3.constraints@.last().enforcement_literal@ == m1.constraints@.last().enforcement_literal@,
        last_kind(m3) matches Some(Constraint::Interval(q)) && opt_expr_is(q.start, start)
            && opt_expr_is(q.size, size) && opt_expr_is(q.end, end),
{
    IntervalVar::lemma_index_determines(iv1, iv2);
    let i = c.index() as int;
    assert(i == m2.constraints@.len() - 1);
    assert(literals_of(seq![p]) =~= seq![p.literal()]);
    assert(m3.constraints@.last() == m3.constraints@[i]);
    assert(m3.constraints@.last().enforcement_literal@ =~= m1.constraints@.last().enforcement_literal@);
    assert forall|j: int| 0 <= j < old.constraints@.len() implies m3.constraints@[j]
        == m1.constraints@[j] by {
        assert(m3.constraints@[j] == m2.constraints@[j]);
    }
}

/// An interval handle refers to an interval constraint when it is made, and
/// posting further constraints keeps it so.
pub proof fn lemma_interval_handle(
    old: CpModelProto,
    new: CpModelProto,
    j: int,
    enforcement: Seq<i32>,
)
    requires
        adds_constraint(old, new, enforcement),
        interval_ref_ok(old, j) || (j == old.constraints@.len() && last_kind(new) matches Some(
            Constraint::Interval(_),
        )),
    ensures
        interval_ref_ok(new, j),
{
    if j < old.constraints@.len() {
        assert(new.constraints@[j] == old.constraints@[j]);
    }
}

// ---------------------------------------------------------------------------
// Objectives
// ---------------------------------------------------------------------------

/// After `minimize(e)`, the solver minimises `e` and reports its value.
pub proof fn lemma_minimize_meaning(m: CpModelProto, e: LinearExprView, values: Seq<i64>)
    requires
        objective_is(m, e.vars, e.coeffs, e.offset as int, 0),
    ensures
        objective_terms(m, values) + e.offset == e.value(values),
        reported_objective(m, values) == e.value(values),
{
}

/// After `maximize(e)`, the solver minimises `-e` and reports the value of `e`,
/// whatever the constant of `e`.
pub proof fn lemma_maximize_meaning(m: CpModelProto, e: LinearExprView, values: Seq<i64>)
    requires
        e.aligned(),
        e.coeffs_negatable(),
        objective_is(m, e.vars, e.negated_coeffs(), -e.offset, -1i64),
    ensures
        objective_terms(m, values) - e.offset == -e.value(values),
        reported_objective(m, values) == e.value(values),
{
    lemma_terms_negated(e.vars, e.coeffs, values);
    let inner = objective_terms(m, values) - e.offset;
    assert(reported_objective(m, values) == -1 * inner);
}

/// After `maximize(e)`, an optimal solution gives `e` the largest value any
/// solution gives it.
pub proof fn lemma_maximize_optimal(m: CpModelProto, e: LinearExprView, best: Seq<i64>, other: Seq<i64>)
    requires
        e.aligned(),
        e.coeffs_negatable(),
        objective_is(m, e.vars, e.negated_coeffs(), -e.offset, -1i64),
        optimal(m, best),
        feasible(m, other),
    ensures
        e.value(other) <= e.value(best),
{
    lemma_maximize_meaning(m, e, best);
    lemma_maximize_meaning(m, e, other);
}

/// After `minimize(e)`, an optimal solution gives `e` the smallest value any
/// solution gives it.
pub proof fn lemma_minimize_optimal(m: CpModelProto, e: LinearExprView, best: Seq<i64>, other: Seq<i64>)
    requires
        objective_is(m, e.vars, e.coeffs, e.offset as int, 0),
        optimal(m, best),
        feasible(m, other),
    ensures
        e.value(best) <= e.value(other),
{
}

// ---------------------------------------------------------------------------
// Solving
// ---------------------------------------------------------------------------

/// A solve's answer is determined by the model and the parameters: two
/// responses that both answer `m` with the same `stop_after_first_solution`
/// agree on status, solution and objective value. In particular solving
/// through the builder and through the free functions gives the same response.
pub proof fn lemma_answer_determined(
    m: CpModelProto,
    stop_after_first_solution: bool,
    r1: CpSolverResponse,
    r2: CpSolverResponse,
)
    requires
        answers(m, stop_after_first_solution, r1),
        answers(m, stop_after_first_solution, r2),
    ensures
        r1.status == r2.status,
        r1.solution@ == r2.solution@,
        r1.objective_value == r2.objective_value,
{
    let found = r1.status == CpSolverStatus::Optimal || r1.status == CpSolverStatus::Feasible;
    if found {
        let a = r1.solution@;
        let b = r2.solution@;
        if a != b {
            lemma_lex_less_total(a, b);
            assert(wanted(m, stop_after_first_solution, a));
            assert(wanted(m, stop_after_first_solution, b));
        }
    } else {
        assert(r1.solution@ =~= r2.solution@);
    }
}

// ---------------------------------------------------------------------------
// Reading a solution back
// ---------------------------------------------------------------------------

/// A response that reports a solution holds a value, within its domain, for
/// every variable of the model: reading any variable back is in bounds.
pub proof fn lemma_solution_readable(
    m: CpModelProto,
    stop_after_first_solution: bool,
    r: CpSolverResponse,
    var: int,
)
    requires
        answers(m, stop_after_first_solution, r),
        r.status == CpSolverStatus::Optimal || r.status == CpSolverStatus::Feasible,
        0 <= var < m.variables@.len(),
    ensures
        var < r.solution@.len(),
        domain_contains(m.variables@[var].domain@, r.solution@[var] as int),
{
}

// ---------------------------------------------------------------------------
// Lists handed to the builder
// ---------------------------------------------------------------------------

/// The flat domain of a list of ranges holds, at `2i` and `2i + 1`, the start
/// and end of the `i`-th range: every range, in order.
pub proof fn lemma_flat_ranges(rs: Seq<RangeInclusive<i64>>)
    ensures
        flat_ranges(rs).len() == 2 * rs.len(),
        forall|i: int|
            0 <= i < rs.len() ==> flat_ranges(rs)[2 * i] == (#[trigger] rs[i])@.start
                && flat_ranges(rs)[2 * i + 1] == rs[i]@.end,
    decreases rs.len(),
{
    if rs.len() > 0 {
        let init = rs.drop_last();
        lemma_flat_ranges(init);
        assert forall|i: int| 0 <= i < rs.len() implies flat_ranges(rs)[2 * i] == (
        #[trigger] rs[i])@.start && flat_ranges(rs)[2 * i + 1] == rs[i]@.end by {
            if i < rs.len() - 1 {
                assert(init[i] == rs[i]);
            }
        }
    }
}

/// A value lies in the domain made from a list of ranges exactly when one of
/// the ranges holds it.
pub proof fn lemma_flat_ranges_contains(rs: Seq<RangeInclusive<i64>>, v: int)
    ensures
        domain_contains(flat_ranges(rs), v) <==> exists|i: int|
            0 <= i < rs.len() && (#[trigger] rs[i])@.start <= v <= rs[i]@.end,
{
    lemma_flat_ranges(rs);
    let d = flat_ranges(rs);
    if domain_contains(d, v) {
        let k = choose|k: int| 0 <= k < d.len() / 2 && #[trigger] pair_contains(d, k, v);
        assert(rs[k]@.start <= v <= rs[k]@.end);
    }
    if exists|i: int| 0 <= i < rs.len() && (#[trigger] rs[i])@.start <= v <= rs[i]@.end {
        let i = choose|i: int| 0 <= i < rs.len() && (#[trigger] rs[i])@.start <= v <= rs[i]@.end;
        assert(pair_contains(d, i, v));
    }
}

/// The literals of a list of boolean variables: one per variable, in order.
pub proof fn lemma_literals_of(bs: Seq<BoolVar>)
    ensures
        literals_of(bs).len() == bs.len(),
        forall|i: int| 0 <= i < bs.len() ==> literals_of(bs)[i] == (#[trigger] bs[i]).literal(),
{
}

/// The views of a list of expressions: one per expression, in order.
pub proof fn lemma_views_of(es: Seq<LinearExpr>)
    ensures
        views_of(es).len() == es.len(),
        forall|i: int| 0 <= i < es.len() ==> views_of(es)[i] == (#[trigger] es[i])@,
{
}

// ---------------------------------------------------------------------------
// Weighted sums
// ---------------------------------------------------------------------------

/// `w0 * t0.value + w1 * t1.value + ...` for weighted terms `(ti, wi)`.
pub open spec fn weighted_total<T: IntoLinearExpr>(ts: Seq<(T, i64)>, values: Seq<i64>) -> int
    decreases ts.len(),
{
    if ts.len() == 0 {
        0
    } else {
        weighted_total(ts.drop_last(), values) + ts.last().1 * ts.last().0.linear_view().value(
            values,
        )
    }
}

/// A weighted sum has, on every assignment, the sum of each term's value
/// times its weight.
pub proof fn lemma_weighted_sum_value<T: IntoLinearExpr>(ts: Seq<(T, i64)>, values: Seq<i64>)
    requires
        forall|i: int| 0 <= i < ts.len() ==> (#[trigger] ts[i]).0.linear_view().aligned(),
        can_weigh(ts),
        can_sum(weighted_views(ts)),
    ensures
        sum_views(weighted_views(ts)).aligned(),
        sum_views(weighted_views(ts)).value(values) == weighted_total(ts, values),
{
    let vs = weighted_views(ts);
    assert forall|i: int| 0 <= i < vs.len() implies #[trigger] vs[i].aligned() by {
        assert(ts[i].0.linear_view().aligned());
        lemma_scaled_value(ts[i].0.linear_view(), ts[i].1, values);
    }
    lemma_sum_value(vs, values);
    lemma_weighted_values(ts, values);
}

proof fn lemma_weighted_values<T: IntoLinearExpr>(ts: Seq<(T, i64)>, values: Seq<i64>)
    requires
        forall|i: int| 0 <= i < ts.len() ==> (#[trigger] ts[i]).0.linear_view().aligned(),
        can_weigh(ts),
    ensures
        sum_of_values(weighted_views(ts), values) == weighted_total(ts, values),
    decreases ts.len(),
{
    if ts.len() > 0 {
        let init = ts.drop_last();
        assert forall|i: int| 0 <= i < init.len() implies (#[trigger] init[i]).0.linear_view().aligned()
            && init[i].0.linear_view().can_scale(init[i].1) by {
            assert(init[i] == ts[i]);
            assert(ts[i].0.linear_view().can_scale(ts[i].1));
        }
        lemma_weighted_values(init, values);
        assert(weighted_views(ts).drop_last() =~= weighted_views(init));
        let n = ts.len() - 1;
        assert(ts[n].0.linear_view().aligned());
        assert(ts[n].0.linear_view().can_scale(ts[n].1));
        lemma_scaled_value(ts[n].0.linear_view(), ts[n].1, values);
    }
}

// ---------------------------------------------------------------------------
// Scheduling
// ---------------------------------------------------------------------------

/// A `no_overlap` over `intervals` holds exactly when every two of its
/// intervals that are both present do not overlap: one ends before the other
/// starts. An absent optional interval never makes it fail.
pub proof fn lemma_no_overlap_meaning(m: CpModelProto, intervals: Seq<i32>, values: Seq<i64>)
    ensures
        no_overlap_holds(m, intervals, values) <==> forall|i: int, j: int|
            #![trigger intervals[i], intervals[j]]
            0 <= i < j < intervals.len() && interval_present(m, intervals[i] as int, values)
                && interval_present(m, intervals[j] as int, values) ==> interval_end(
                m,
                intervals[i] as int,
                values,
            ) <= interval_start(m, intervals[j] as int, values) || interval_end(
                m,
                intervals[j] as int,
                values,
            ) <= interval_start(m, intervals[i] as int, values),
{
    if no_overlap_holds(m, intervals, values) {
        assert forall|i: int, j: int|
            #![trigger intervals[i], intervals[j]]
            0 <= i < j < intervals.len() && interval_present(m, intervals[i] as int, values)
                && interval_present(m, intervals[j] as int, values) implies interval_end(
                m,
                intervals[i] as int,
                values,
            ) <= interval_start(m, intervals[j] as int, values) || interval_end(
                m,
                intervals[j] as int,
                values,
            ) <= interval_start(m, intervals[i] as int, values) by {
            assert(disjoint(m, intervals[i] as int, intervals[j] as int, values));
        }
    }
    if forall|i: int, j: int|
        #![trigger intervals[i], intervals[j]]
        0 <= i < j < intervals.len() && interval_present(m, intervals[i] as int, values)
            && interval_present(m, intervals[j] as int, values) ==> interval_end(
            m,
            intervals[i] as int,
            values,
        ) <= interval_start(m, intervals[j] as int, values) || interval_end(
            m,
            intervals[j] as int,
            values,
        ) <= interval_start(m, intervals[i] as int, values) {
        assert forall|i: int, j: int| 0 <= i < j < intervals.len() implies #[trigger] disjoint(
            m,
            intervals[i] as int,
            intervals[j] as int,
            values,
        ) by {
            let a = intervals[i];
            let b = intervals[j];
        }
    }
}

/// Two intervals, one of them absent, never conflict in a `no_overlap`.
pub proof fn lemma_absent_interval_is_disjoint(m: CpModelProto, i: int, j: int, values: Seq<i64>)
    requires
        !interval_present(m, i, values) || !interval_present(m, j, values),
    ensures
        disjoint(m, i, j, values),
{
}

/// The constraint indices of a list of intervals: one per interval, in order.
pub proof fn lemma_interval_indices(ivs: Seq<IntervalVar>)
    ensures
        interval_indices(ivs).len() == ivs.len(),
        forall|i: int| 0 <= i < ivs.len() ==> interval_indices(ivs)[i] == (#[trigger] ivs[i]).index(),
{
}

/// The expressions of a list of values: one per value, in order.
pub proof fn lemma_linear_views<T: IntoLinearExpr>(ts: Seq<T>)
    ensures
        linear_views(ts).len() == ts.len(),
        forall|i: int| 0 <= i < ts.len() ==> linear_views(ts)[i] == (#[trigger] ts[i]).linear_view(),
{
}

/// Expressions stored for `es` hold, position by position, the terms and
/// constant of the expression at the same position.
pub proof fn lemma_exprs_are(ps: Seq<LinearExpressionProto>, es: Seq<LinearExprView>)
    requires
        exprs_are(ps, es),
    ensures
        ps.len() == es.len(),
        forall|i: int|
            0 <= i < ps.len() ==> (#[trigger] ps[i]).vars@ == es[i].vars && ps[i].coeffs@
                == es[i].coeffs && ps[i].offset == es[i].offset,
{
    assert forall|i: int| 0 <= i < ps.len() implies (#[trigger] ps[i]).vars@ == es[i].vars
        && ps[i].coeffs@ == es[i].coeffs && ps[i].offset == es[i].offset by {
        assert(expr_is(ps[i], es[i]));
    }
}

/// `t0.value + t1.value + ...` for a list of values standing for expressions.
pub open spec fn items_total<T: IntoLinearExpr>(ts: Seq<T>, values: Seq<i64>) -> int
    decreases ts.len(),
{
    if ts.len() == 0 {
        0
    } else {
        items_total(ts.drop_last(), values) + ts.last().linear_view().value(values)
    }
}

/// A sum has, on every assignment, the sum of its terms' values.
pub proof fn lemma_sum_items_value<T: IntoLinearExpr>(ts: Seq<T>, values: Seq<i64>)
    requires
        forall|i: int| 0 <= i < ts.len() ==> (#[trigger] ts[i]).linear_view().aligned(),
        can_sum(linear_views(ts)),
    ensures
        sum_views(linear_views(ts)).aligned(),
        sum_views(linear_views(ts)).value(values) == items_total(ts, values),
{
    let vs = linear_views(ts);
    assert forall|i: int| 0 <= i < vs.len() implies #[trigger] vs[i].aligned() by {
        assert(ts[i].linear_view().aligned());
    }
    lemma_sum_value(vs, values);
    lemma_items_values(ts, values);
}

proof fn lemma_items_values<T: IntoLinearExpr>(ts: Seq<T>, values: Seq<i64>)
    ensures
        sum_of_values(linear_views(ts), values) == items_total(ts, values),
    decreases ts.len(),
{
    if ts.len() > 0 {
        lemma_items_values(ts.drop_last(), values);
        assert(linear_views(ts).drop_last() =~= linear_views(ts.drop_last()));
    }
}

// ---------------------------------------------------------------------------
// What the boolean constraints count
// ---------------------------------------------------------------------------

/// The number of true literals is the length of the list of true literals.
pub proof fn lemma_count_true_is_filter_len(lits: Seq<i32>, values: Seq<i64>)
    ensures
        count_true(lits, values) == lits.filter(|l: i32| literal_value(l, values)).len(),
    decreases lits.len(),
{
    reveal(Seq::filter);
    if lits.len() > 0 {
        lemma_count_true_is_filter_len(lits.drop_last(), values);
    }
}

/// No literal is true exactly when none is counted.
pub proof fn lemma_count_true_zero(lits: Seq<i32>, values: Seq<i64>)
    ensures
        count_true(lits, values) >= 0,
        count_true(lits, values) == 0 <==> forall|i: int|
            0 <= i < lits.len() ==> !literal_value(#[trigger] lits[i], values),
    decreases lits.len(),
{
    if lits.len() > 0 {
        let init = lits.drop_last();
        lemma_count_true_zero(init, values);
        if count_true(lits, values) == 0 {
            assert forall|i: int| 0 <= i < lits.len() implies !literal_value(
                #[trigger] lits[i],
                values,
            ) by {
                if i < lits.len() - 1 {
                    assert(init[i] == lits[i]);
                }
            }
        }
        if forall|i: int| 0 <= i < lits.len() ==> !literal_value(#[trigger] lits[i], values) {
            assert forall|i: int| 0 <= i < init.len() implies !literal_value(
                #[trigger] init[i],
                values,
            ) by {
                assert(init[i] == lits[i]);
            }
            assert(!literal_value(lits[lits.len() - 1], values));
        }
    }
}

/// `at_most_one` holds exactly when no two different literals are both true.
pub proof fn lemma_at_most_one_meaning(lits: Seq<i32>, values: Seq<i64>)
    ensures
        count_true(lits, values) <= 1 <==> forall|i: int, j: int|
            0 <= i < j < lits.len() ==> !(literal_value(#[trigger] lits[i], values)
                && literal_value(#[trigger] lits[j], values)),
    decreases lits.len(),
{
    if lits.len() > 0 {
        let init = lits.drop_last();
        let n = lits.len() - 1;
        lemma_at_most_one_meaning(init, values);
        lemma_count_true_zero(init, values);
        if count_true(lits, values) <= 1 {
            assert forall|i: int, j: int| 0 <= i < j < lits.len() implies !(literal_value(
                #[trigger] lits[i],
                values,
            ) && literal_value(#[trigger] lits[j], values)) by {
                assert(init[i] == lits[i]);
                if j < n {
                    assert(init[j] == lits[j]);
                }
            }
        }
        if forall|i: int, j: int|
            0 <= i < j < lits.len() ==> !(literal_value(#[trigger] lits[i], values)
                && literal_value(#[trigger] lits[j], values)) {
            assert forall|i: int, j: int| 0 <= i < j < init.len() implies !(literal_value(
                #[trigger] init[i],
                values,
            ) && literal_value(#[trigger] init[j], values)) by {
                assert(init[i] == lits[i] && init[j] == lits[j]);
            }
            if literal_value(lits[n], values) {
                assert forall|i: int| 0 <= i < init.len() implies !literal_value(
                    #[trigger] init[i],
                    values,
                ) by {
                    assert(init[i] == lits[i]);
                    assert(!(literal_value(lits[i], values) && literal_value(lits[n], values)));
                }
            }
        }
    }
}

/// `exactly_one` holds exactly when some literal is true and no two different
/// literals are.
pub proof fn lemma_exactly_one_meaning(lits: Seq<i32>, values: Seq<i64>)
    ensures
        count_true(lits, values) == 1 <==> (exists|i: int|
            0 <= i < lits.len() && literal_value(#[trigger] lits[i], values)) && forall|i: int, j: int|
            0 <= i < j < lits.len() ==> !(literal_value(#[trigger] lits[i], values)
                && literal_value(#[trigger] lits[j], values)),
{
    lemma_at_most_one_meaning(lits, values);
    lemma_count_true_zero(lits, values);
}

// ---------------------------------------------------------------------------
// What the arithmetic constraints compute
// ---------------------------------------------------------------------------

/// The maximum of a nonempty list is at least every value of it and equals one.
pub proof fn lemma_max_value_meaning(exprs: Seq<LinearExpressionProto>, values: Seq<i64>)
    requires
        exprs.len() >= 1,
    ensures
        forall|i: int| 0 <= i < exprs.len() ==> expr_value(#[trigger] exprs[i], values) <= max_value(
            exprs,
            values,
        ),
        exists|i: int| 0 <= i < exprs.len() && max_value(exprs, values) == expr_value(
            #[trigger] exprs[i],
            values,
        ),
    decreases exprs.len(),
{
    if exprs.len() == 1 {
        assert(max_value(exprs, values) == expr_value(exprs[0], values));
    } else {
        let init = exprs.drop_last();
        let n = exprs.len() - 1;
        lemma_max_value_meaning(init, values);
        assert forall|i: int| 0 <= i < exprs.len() implies expr_value(
            #[trigger] exprs[i],
            values,
        ) <= max_value(exprs, values) by {
            if i < n {
                assert(init[i] == exprs[i]);
                assert(expr_value(init[i], values) <= max_value(init, values));
            }
        }
        let k = choose|k: int| 0 <= k < init.len() && max_value(init, values) == expr_value(
            #[trigger] init[k],
            values,
        );
        if max_value(exprs, values) == expr_value(exprs[n], values) {
            assert(expr_value(exprs[n], values) == max_value(exprs, values));
        } else {
            assert(init[k] == exprs[k]);
            assert(max_value(exprs, values) == expr_value(exprs[k], values));
        }
    }
}

/// A product is zero exactly when one of its factors is.
pub proof fn lemma_product_zero(exprs: Seq<LinearExpressionProto>, values: Seq<i64>)
    ensures
        product_value(exprs, values) == 0 <==> exists|i: int|
            0 <= i < exprs.len() && expr_value(#[trigger] exprs[i], values) == 0,
    decreases exprs.len(),
{
    if exprs.len() > 0 {
        let init = exprs.drop_last();
        let n = exprs.len() - 1;
        lemma_product_zero(init, values);
        let p = product_value(init, values);
        let v = expr_value(exprs[n], values);
        assert(p * v == 0 <==> (p == 0 || v == 0)) by (nonlinear_arith);
        if exists|i: int| 0 <= i < init.len() && expr_value(#[trigger] init[i], values) == 0 {
            let i = choose|i: int| 0 <= i < init.len() && expr_value(#[trigger] init[i], values) == 0;
            assert(init[i] == exprs[i]);
        }
        if exists|i: int| 0 <= i < exprs.len() && expr_value(#[trigger] exprs[i], values) == 0 {
            let i = choose|i: int| 0 <= i < exprs.len() && expr_value(#[trigger] exprs[i], values) == 0;
            if i < n {
                assert(init[i] == exprs[i]);
            }
        }
    }
}

/// The load of a `cumulative` at time `t`: zero when no listed interval covers
/// `t`, and the demand paired with the one interval that does when only one
/// does.
pub proof fn lemma_load_single(
    m: CpModelProto,
    intervals: Seq<i32>,
    demands: Seq<LinearExpressionProto>,
    t: int,
    values: Seq<i64>,
    k: int,
)
    requires
        intervals.len() <= demands.len(),
        -1 <= k < intervals.len(),
        forall|j: int|
            0 <= j < intervals.len() && j != k ==> !covers(m, #[trigger] intervals[j] as int, t, values),
    ensures
        k == -1 ==> load_at(m, intervals, demands, t, values) == 0,
        k >= 0 && covers(m, intervals[k] as int, t, values) ==> load_at(m, intervals, demands, t, values)
            == expr_value(demands[k], values),
    decreases intervals.len(),
{
    if intervals.len() > 0 {
        let init = intervals.drop_last();
        let n = intervals.len() - 1;
        assert forall|j: int| 0 <= j < init.len() && j != k implies !covers(
            m,
            #[trigger] init[j] as int,
            t,
            values,
        ) by {
            assert(init[j] == intervals[j]);
        }
        if k == n {
            lemma_load_single(m, init, demands, t, values, -1);
        } else {
            lemma_load_single(m, init, demands, t, values, k);
            if k >= 0 {
                assert(init[k] == intervals[k]);
            }
        }
    }
}

} // verus!
