//! Which models are well formed, and the bounds that keep every value of a
//! well-formed model inside `i64`.

use vstd::prelude::*;

use crate::proto::constraint_proto::Constraint;
use crate::proto::{
    ConstraintProto, CpModelProto, CpObjectiveProto, CumulativeConstraintProto,
    IntervalConstraintProto, LinearExpressionProto,
};
use crate::semantics::{
    domain_contains, expr_value, interval_at, pair_contains, terms_value, within_domains,
};

verus! {

/// The absolute value.
pub open spec fn abs(x: int) -> int {
    if x < 0 {
        -x
    } else {
        x
    }
}

/// The larger of two integers.
pub open spec fn max(x: int, y: int) -> int {
    if x < y {
        y
    } else {
        x
    }
}

/// The smaller of two integers.
pub open spec fn min(x: int, y: int) -> int {
    if x < y {
        x
    } else {
        y
    }
}

/// The largest absolute value among the entries of a flat domain.
pub open spec fn magnitude(d: Seq<i64>) -> int
    decreases d.len(),
{
    if d.len() == 0 {
        0
    } else {
        max(magnitude(d.drop_last()), abs(d.last() as int))
    }
}

/// The smallest of `c * d[k]` over the entries of a flat domain (zero if empty).
pub open spec fn min_scaled(c: i64, d: Seq<i64>) -> int
    decreases d.len(),
{
    if d.len() == 0 {
        0
    } else if d.len() == 1 {
        c * d[0]
    } else {
        min(min_scaled(c, d.drop_last()), c * d.last())
    }
}

/// The largest of `c * d[k]` over the entries of a flat domain (zero if empty).
pub open spec fn max_scaled(c: i64, d: Seq<i64>) -> int
    decreases d.len(),
{
    if d.len() == 0 {
        0
    } else if d.len() == 1 {
        c * d[0]
    } else {
        max(max_scaled(c, d.drop_last()), c * d.last())
    }
}

/// Consecutive entries of a flat domain are ordered, and pairs are apart.
pub open spec fn step_ok(d: Seq<i64>, i: int) -> bool {
    if i % 2 == 0 {
        d[i] <= d[i + 1]
    } else {
        d[i] < d[i + 1]
    }
}

/// A flat domain: an even number of entries, sorted `[lo, hi]` pairs, each
/// pair ending before the next begins.
pub open spec fn domain_well_formed(d: Seq<i64>) -> bool {
    &&& d.len() % 2 == 0
    &&& forall|i: int| 0 <= i < d.len() - 1 ==> #[trigger] step_ok(d, i)
}

/// A variable has a nonempty, well-formed domain.
pub open spec fn variable_ok(d: Seq<i64>) -> bool {
    d.len() >= 2 && domain_well_formed(d)
}

/// The flat domain of variable `r`.
pub open spec fn domain_of(m: CpModelProto, r: int) -> Seq<i64> {
    m.variables@[r].domain@
}

/// `r` names a variable of the model.
pub open spec fn ref_ok(m: CpModelProto, r: int) -> bool {
    0 <= r < m.variables@.len()
}

/// Every value in the domain of variable `r` is 0 or 1.
pub open spec fn boolean_var(m: CpModelProto, r: int) -> bool {
    forall|k: int|
        0 <= k < domain_of(m, r).len() ==> 0 <= #[trigger] domain_of(m, r)[k] <= 1
}

/// The variable a literal speaks of.
pub open spec fn literal_var(lit: i32) -> int {
    if lit >= 0 {
        lit as int
    } else {
        -lit - 1
    }
}

/// A literal names a boolean variable of the model.
pub open spec fn literal_ok(m: CpModelProto, lit: i32) -> bool {
    ref_ok(m, literal_var(lit)) && boolean_var(m, literal_var(lit))
}

/// Every literal of the list names a boolean variable of the model.
pub open spec fn literals_ok(m: CpModelProto, lits: Seq<i32>) -> bool {
    forall|i: int| 0 <= i < lits.len() ==> #[trigger] literal_ok(m, lits[i])
}

/// `sum |coeffs[i]| * magnitude(domain of vars[i])`: no assignment within the
/// domains gives the terms a larger absolute value.
pub open spec fn terms_bound(m: CpModelProto, vars: Seq<i32>, coeffs: Seq<i64>) -> int
    decreases vars.len(),
{
    if vars.len() == 0 {
        0
    } else {
        let n = vars.len() - 1;
        terms_bound(m, vars.drop_last(), coeffs) + abs(coeffs[n] as int) * magnitude(
            domain_of(m, vars[n] as int),
        )
    }
}

/// `sum min_k coeffs[i] * d_k` over the domain entries of each variable: no
/// assignment within the domains gives the terms a smaller value.
pub open spec fn terms_low(m: CpModelProto, vars: Seq<i32>, coeffs: Seq<i64>) -> int
    decreases vars.len(),
{
    if vars.len() == 0 {
        0
    } else {
        let n = vars.len() - 1;
        terms_low(m, vars.drop_last(), coeffs) + min_scaled(
            coeffs[n],
            domain_of(m, vars[n] as int),
        )
    }
}

/// `sum max_k coeffs[i] * d_k` over the domain entries of each variable: no
/// assignment within the domains gives the terms a larger value.
pub open spec fn terms_high(m: CpModelProto, vars: Seq<i32>, coeffs: Seq<i64>) -> int
    decreases vars.len(),
{
    if vars.len() == 0 {
        0
    } else {
        let n = vars.len() - 1;
        terms_high(m, vars.drop_last(), coeffs) + max_scaled(
            coeffs[n],
            domain_of(m, vars[n] as int),
        )
    }
}

/// One coefficient per variable, every variable named by the model, and the
/// terms' bound within `i64`.
pub open spec fn terms_ok(m: CpModelProto, vars: Seq<i32>, coeffs: Seq<i64>) -> bool {
    &&& vars.len() == coeffs.len()
    &&& forall|i: int| 0 <= i < vars.len() ==> #[trigger] ref_ok(m, vars[i] as int)
    &&& terms_bound(m, vars, coeffs) <= i64::MAX
}

/// No assignment within the domains gives the expression a larger absolute value.
pub open spec fn expr_bound(m: CpModelProto, e: LinearExpressionProto) -> int {
    terms_bound(m, e.vars@, e.coeffs@) + abs(e.offset as int)
}

/// A well-formed expression whose value always fits in `i64`.
pub open spec fn expr_ok(m: CpModelProto, e: LinearExpressionProto) -> bool {
    terms_ok(m, e.vars@, e.coeffs@) && expr_bound(m, e) <= i64::MAX
}

/// The optional expression is present and well formed.
pub open spec fn opt_expr_ok(m: CpModelProto, e: Option<LinearExpressionProto>) -> bool {
    match e {
        Some(e) => expr_ok(m, e),
        None => false,
    }
}

/// The bound of an optional expression; zero when absent.
pub open spec fn opt_expr_bound(m: CpModelProto, e: Option<LinearExpressionProto>) -> int {
    match e {
        Some(e) => expr_bound(m, e),
        None => 0,
    }
}

/// Every expression of the list is well formed.
pub open spec fn exprs_ok(m: CpModelProto, es: Seq<LinearExpressionProto>) -> bool {
    forall|i: int| 0 <= i < es.len() ==> #[trigger] expr_ok(m, es[i])
}

/// `prod max(1, expr_bound(e))`: no assignment gives the product of the
/// expressions, or of any prefix of them, a larger absolute value.
pub open spec fn product_bound(m: CpModelProto, es: Seq<LinearExpressionProto>) -> int
    decreases es.len(),
{
    if es.len() == 0 {
        1
    } else {
        product_bound(m, es.drop_last()) * max(1, expr_bound(m, es.last()))
    }
}

/// The sum of the expressions' bounds.
pub open spec fn sum_bound(m: CpModelProto, es: Seq<LinearExpressionProto>) -> int
    decreases es.len(),
{
    if es.len() == 0 {
        0
    } else {
        sum_bound(m, es.drop_last()) + expr_bound(m, es.last())
    }
}

/// A demand never takes a negative value.
pub open spec fn demand_ok(m: CpModelProto, e: LinearExpressionProto) -> bool {
    expr_ok(m, e) && terms_low(m, e.vars@, e.coeffs@) + e.offset >= 0
}

/// `j` is the index of an interval constraint.
pub open spec fn interval_ref_ok(m: CpModelProto, j: int) -> bool {
    interval_at(m, j) is Some
}

/// Every listed index is that of an interval constraint.
pub open spec fn interval_refs_ok(m: CpModelProto, intervals: Seq<i32>) -> bool {
    forall|i: int| 0 <= i < intervals.len() ==> #[trigger] interval_ref_ok(m, intervals[i] as int)
}

/// A well-formed cumulative constraint: a capacity, one nonnegative demand per
/// interval, and a total demand bound within `i64`.
pub open spec fn cumulative_ok(m: CpModelProto, c: CumulativeConstraintProto) -> bool {
    &&& opt_expr_ok(m, c.capacity)
    &&& c.intervals@.len() == c.demands@.len()
    &&& interval_refs_ok(m, c.intervals@)
    &&& forall|i: int| 0 <= i < c.demands@.len() ==> #[trigger] demand_ok(m, c.demands@[i])
    &&& sum_bound(m, c.demands@) <= i64::MAX
}

/// A well-formed interval: start, size and end present and well formed.
pub open spec fn interval_ok(m: CpModelProto, iv: IntervalConstraintProto) -> bool {
    &&& opt_expr_ok(m, iv.start)
    &&& opt_expr_ok(m, iv.size)
    &&& opt_expr_ok(m, iv.end)
}

/// The kind-specific part of a constraint is well formed.
pub open spec fn body_ok(m: CpModelProto, c: Option<Constraint>) -> bool {
    match c {
        None => true,
        Some(Constraint::BoolOr(b)) => literals_ok(m, b.literals@),
        Some(Constraint::BoolAnd(b)) => literals_ok(m, b.literals@),
        Some(Constraint::AtMostOne(b)) => literals_ok(m, b.literals@),
        Some(Constraint::ExactlyOne(b)) => literals_ok(m, b.literals@),
        Some(Constraint::BoolXor(b)) => literals_ok(m, b.literals@),
        Some(Constraint::LinMax(p)) => {
            &&& opt_expr_ok(m, p.target)
            &&& exprs_ok(m, p.exprs@)
            &&& p.exprs@.len() >= 1
        },
        Some(Constraint::IntProd(p)) => {
            &&& opt_expr_ok(m, p.target)
            &&& exprs_ok(m, p.exprs@)
            &&& product_bound(m, p.exprs@) <= i64::MAX
        },
        Some(Constraint::Linear(l)) => terms_ok(m, l.vars@, l.coeffs@) && domain_well_formed(
            l.domain@,
        ),
        Some(Constraint::AllDiff(d)) => exprs_ok(m, d.exprs@),
        Some(Constraint::Interval(iv)) => interval_ok(m, iv),
        Some(Constraint::NoOverlap(n)) => interval_refs_ok(m, n.intervals@),
        Some(Constraint::Cumulative(c)) => cumulative_ok(m, c),
    }
}

/// A well-formed constraint: its enforcement literals and its body.
pub open spec fn constraint_ok(m: CpModelProto, c: ConstraintProto) -> bool {
    literals_ok(m, c.enforcement_literal@) && body_ok(m, c.constraint)
}

/// The scaling factor an objective applies; zero counts as one.
pub open spec fn scale_of(o: CpObjectiveProto) -> int {
    if o.scaling_factor == 0 {
        1
    } else {
        o.scaling_factor as int
    }
}

/// A well-formed objective whose reported value always fits in `i64`: the
/// reported value at the lowest and at the highest the terms can reach both
/// fit, and the offset is within the negation of an `i64`.
pub open spec fn objective_ok(m: CpModelProto, o: CpObjectiveProto) -> bool {
    &&& terms_ok(m, o.vars@, o.coeffs@)
    &&& abs(o.offset as int) <= 0x8000_0000_0000_0000
    &&& i64::MIN <= scale_of(o) * (terms_low(m, o.vars@, o.coeffs@) + o.offset) <= i64::MAX
    &&& i64::MIN <= scale_of(o) * (terms_high(m, o.vars@, o.coeffs@) + o.offset) <= i64::MAX
}

/// A well-formed model: every variable has a well-formed domain, every
/// constraint and the objective refer only to what the model holds, and no
/// expression can leave `i64` on any assignment within the domains.
pub open spec fn model_ok(m: CpModelProto) -> bool {
    &&& variables_ok(m)
    &&& constraints_ok(m)
    &&& model_objective_ok(m)
}

/// Every variable has a well-formed, nonempty domain.
pub open spec fn variables_ok(m: CpModelProto) -> bool {
    forall|i: int| 0 <= i < m.variables@.len() ==> #[trigger] variable_ok(m.variables@[i].domain@)
}

/// Every constraint is well formed.
pub open spec fn constraints_ok(m: CpModelProto) -> bool {
    forall|c: int| 0 <= c < m.constraints@.len() ==> #[trigger] constraint_ok(m, m.constraints@[c])
}

/// The objective, if there is one, is well formed.
pub open spec fn model_objective_ok(m: CpModelProto) -> bool {
    match m.objective {
        Some(o) => objective_ok(m, o),
        None => true,
    }
}

/// The explanation given for a malformed model: the variables are checked
/// first, then the objective, then the constraints.
pub open spec fn validation_message(m: CpModelProto) -> Seq<char> {
    if !variables_ok(m) {
        "a variable has an empty or malformed domain"@
    } else if !model_objective_ok(m) {
        "the objective refers to an unknown variable or may overflow i64"@
    } else {
        "a constraint refers to an unknown variable, literal or interval, or may overflow i64"@
    }
}

/// What validating `m` gives: `Ok(())` exactly when it is well formed, and
/// otherwise the explanation of [`validation_message`].
pub open spec fn validation_result(m: CpModelProto, r: Result<(), String>) -> bool {
    match r {
        Ok(_) => model_ok(m),
        Err(e) => !model_ok(m) && e@ == validation_message(m),
    }
}

// ---------------------------------------------------------------------------
// Bounds
// ---------------------------------------------------------------------------

/// Every entry of a flat domain is within its magnitude.
pub proof fn lemma_magnitude_entry(d: Seq<i64>, k: int)
    requires
        0 <= k < d.len(),
    ensures
        abs(d[k] as int) <= magnitude(d),
        magnitude(d) >= 0,
    decreases d.len(),
{
    if k < d.len() - 1 {
        lemma_magnitude_entry(d.drop_last(), k);
    } else if d.len() > 1 {
        lemma_magnitude_entry(d.drop_last(), 0);
    }
}

/// A magnitude is never negative.
pub proof fn lemma_magnitude_nonneg(d: Seq<i64>)
    ensures
        magnitude(d) >= 0,
    decreases d.len(),
{
    if d.len() > 0 {
        lemma_magnitude_nonneg(d.drop_last());
    }
}

/// A value of a domain is no larger in absolute value than the domain's magnitude.
pub proof fn lemma_domain_value_bound(d: Seq<i64>, v: int)
    requires
        domain_contains(d, v),
    ensures
        abs(v) <= magnitude(d),
{
    let k = choose|k: int| 0 <= k < d.len() / 2 && #[trigger] pair_contains(d, k, v);
    lemma_magnitude_entry(d, 2 * k);
    lemma_magnitude_entry(d, 2 * k + 1);
}

/// The minimum of `c * d[k]` is at most each of them.
pub proof fn lemma_min_scaled_entry(c: i64, d: Seq<i64>, k: int)
    requires
        0 <= k < d.len(),
    ensures
        min_scaled(c, d) <= c * d[k],
    decreases d.len(),
{
    if d.len() > 1 && k < d.len() - 1 {
        lemma_min_scaled_entry(c, d.drop_last(), k);
    }
}

/// The maximum of `c * d[k]` is at least each of them.
pub proof fn lemma_max_scaled_entry(c: i64, d: Seq<i64>, k: int)
    requires
        0 <= k < d.len(),
    ensures
        max_scaled(c, d) >= c * d[k],
    decreases d.len(),
{
    if d.len() > 1 && k < d.len() - 1 {
        lemma_max_scaled_entry(c, d.drop_last(), k);
    }
}

/// The maximum is attained, so it is no larger in absolute value than
/// `|c| * magnitude(d)`.
pub proof fn lemma_max_scaled_bound(c: i64, d: Seq<i64>)
    ensures
        abs(max_scaled(c, d)) <= abs(c as int) * magnitude(d),
    decreases d.len(),
{
    lemma_magnitude_nonneg(d);
    if d.len() == 1 {
        lemma_magnitude_entry(d, 0);
        lemma_abs_product_le(c as int, d[0] as int, magnitude(d));
    } else if d.len() > 1 {
        lemma_max_scaled_bound(c, d.drop_last());
        lemma_magnitude_entry(d, d.len() - 1);
        lemma_abs_product_le(c as int, d.last() as int, magnitude(d));
        lemma_magnitude_nonneg(d.drop_last());
        lemma_mul_nonneg_mono(abs(c as int), magnitude(d.drop_last()), magnitude(d));
    }
}

/// A value of a domain, times `c`, is at most the domain's largest `c * d[k]`.
pub proof fn lemma_domain_value_high(c: i64, d: Seq<i64>, v: int)
    requires
        domain_contains(d, v),
    ensures
        c * v <= max_scaled(c, d),
{
    let k = choose|k: int| 0 <= k < d.len() / 2 && #[trigger] pair_contains(d, k, v);
    let lo = d[2 * k] as int;
    let hi = d[2 * k + 1] as int;
    let cc = c as int;
    if cc >= 0 {
        assert(cc * v <= cc * hi) by (nonlinear_arith)
            requires
                cc >= 0,
                v <= hi,
        ;
    } else {
        assert(cc * v <= cc * lo) by (nonlinear_arith)
            requires
                cc < 0,
                lo <= v,
        ;
    }
    lemma_max_scaled_entry(c, d, 2 * k);
    lemma_max_scaled_entry(c, d, 2 * k + 1);
}

/// The minimum is attained, so it is no larger in absolute value than
/// `|c| * magnitude(d)`.
pub proof fn lemma_min_scaled_bound(c: i64, d: Seq<i64>)
    ensures
        abs(min_scaled(c, d)) <= abs(c as int) * magnitude(d),
    decreases d.len(),
{
    lemma_magnitude_nonneg(d);
    if d.len() == 1 {
        lemma_magnitude_entry(d, 0);
        lemma_abs_product_le(c as int, d[0] as int, magnitude(d));
    } else if d.len() > 1 {
        lemma_min_scaled_bound(c, d.drop_last());
        lemma_magnitude_entry(d, d.len() - 1);
        lemma_abs_product_le(c as int, d.last() as int, magnitude(d));
        lemma_magnitude_nonneg(d.drop_last());
        lemma_mul_nonneg_mono(abs(c as int), magnitude(d.drop_last()), magnitude(d));
    }
}

/// Multiplying by a nonnegative factor keeps the order of nonnegative numbers.
pub proof fn lemma_mul_nonneg_mono(a: int, x: int, y: int)
    requires
        a >= 0,
        0 <= x <= y,
    ensures
        0 <= a * x <= a * y,
{
    assert(0 <= a * x <= a * y) by (nonlinear_arith)
        requires
            a >= 0,
            0 <= x <= y,
    ;
}

/// `|c * x| <= |c| * bound` whenever `|x| <= bound`.
pub proof fn lemma_abs_product_le(c: int, x: int, bound: int)
    requires
        abs(x) <= bound,
    ensures
        abs(c * x) <= abs(c) * bound,
        abs(c * x) == abs(c) * abs(x),
{
    assert(abs(c * x) == abs(c) * abs(x)) by (nonlinear_arith);
    lemma_mul_nonneg_mono(abs(c), abs(x), bound);
}

/// For `lo <= v <= hi`, `c * v` is at least `min(c * lo, c * hi)`.
pub proof fn lemma_scaled_between(c: int, lo: int, v: int, hi: int)
    requires
        lo <= v <= hi,
    ensures
        c * v >= min(c * lo, c * hi),
{
    if c >= 0 {
        assert(c * v >= c * lo) by (nonlinear_arith)
            requires
                c >= 0,
                lo <= v,
        ;
    } else {
        assert(c * v >= c * hi) by (nonlinear_arith)
            requires
                c < 0,
                v <= hi,
        ;
    }
}

/// A value of a domain, times `c`, is at least the domain's smallest `c * d[k]`.
pub proof fn lemma_domain_value_low(c: i64, d: Seq<i64>, v: int)
    requires
        domain_contains(d, v),
    ensures
        c * v >= min_scaled(c, d),
{
    let k = choose|k: int| 0 <= k < d.len() / 2 && #[trigger] pair_contains(d, k, v);
    lemma_scaled_between(c as int, d[2 * k] as int, v, d[2 * k + 1] as int);
    lemma_min_scaled_entry(c, d, 2 * k);
    lemma_min_scaled_entry(c, d, 2 * k + 1);
}

/// A terms bound is never negative.
pub proof fn lemma_terms_bound_nonneg(m: CpModelProto, vars: Seq<i32>, coeffs: Seq<i64>)
    ensures
        terms_bound(m, vars, coeffs) >= 0,
    decreases vars.len(),
{
    if vars.len() > 0 {
        let n = vars.len() - 1;
        lemma_terms_bound_nonneg(m, vars.drop_last(), coeffs);
        lemma_magnitude_nonneg(domain_of(m, vars[n] as int));
        lemma_mul_nonneg_mono(abs(coeffs[n] as int), 0, magnitude(domain_of(m, vars[n] as int)));
    }
}

/// The bound of a prefix of the terms is no larger than that of all of them.
pub proof fn lemma_terms_bound_prefix(m: CpModelProto, vars: Seq<i32>, coeffs: Seq<i64>, i: int)
    requires
        0 <= i <= vars.len(),
    ensures
        0 <= terms_bound(m, vars.subrange(0, i), coeffs) <= terms_bound(m, vars, coeffs),
    decreases vars.len(),
{
    lemma_terms_bound_nonneg(m, vars.subrange(0, i), coeffs);
    if i < vars.len() {
        let n = vars.len() - 1;
        assert(vars.drop_last().subrange(0, i) =~= vars.subrange(0, i));
        lemma_terms_bound_prefix(m, vars.drop_last(), coeffs, i);
        lemma_magnitude_nonneg(domain_of(m, vars[n] as int));
        lemma_mul_nonneg_mono(abs(coeffs[n] as int), 0, magnitude(domain_of(m, vars[n] as int)));
    } else {
        assert(vars.subrange(0, i) =~= vars);
    }
}

/// On an assignment within the domains, the terms lie between their low
/// value and their bound.
pub proof fn lemma_terms_value_bounds(
    m: CpModelProto,
    vars: Seq<i32>,
    coeffs: Seq<i64>,
    values: Seq<i64>,
)
    requires
        vars.len() <= coeffs.len(),
        forall|i: int| 0 <= i < vars.len() ==> #[trigger] ref_ok(m, vars[i] as int),
        within_domains(m, values),
    ensures
        abs(terms_value(vars, coeffs, values)) <= terms_bound(m, vars, coeffs),
        terms_value(vars, coeffs, values) >= terms_low(m, vars, coeffs),
        terms_value(vars, coeffs, values) <= terms_high(m, vars, coeffs),
    decreases vars.len(),
{
    if vars.len() > 0 {
        let n = vars.len() - 1;
        let r = vars[n] as int;
        assert(ref_ok(m, vars[n] as int));
        lemma_terms_value_bounds(m, vars.drop_last(), coeffs, values);
        assert(domain_contains(m.variables@[r].domain@, values[r] as int));
        lemma_domain_value_bound(domain_of(m, r), values[r] as int);
        lemma_abs_product_le(coeffs[n] as int, values[r] as int, magnitude(domain_of(m, r)));
        lemma_domain_value_low(coeffs[n], domain_of(m, r), values[r] as int);
        lemma_domain_value_high(coeffs[n], domain_of(m, r), values[r] as int);
    }
}

/// On an assignment within the domains, a well-formed expression stays within
/// its bound and above its low value, and so within `i64`.
pub proof fn lemma_expr_value_bound(m: CpModelProto, e: LinearExpressionProto, values: Seq<i64>)
    requires
        expr_ok(m, e),
        within_domains(m, values),
    ensures
        abs(expr_value(e, values)) <= expr_bound(m, e),
        expr_value(e, values) >= terms_low(m, e.vars@, e.coeffs@) + e.offset,
        i64::MIN < expr_value(e, values) <= i64::MAX,
{
    lemma_terms_value_bounds(m, e.vars@, e.coeffs@, values);
}

} // verus!
