//! Checking that a model is well formed.

use vstd::prelude::*;

use crate::proto::constraint_proto::Constraint;
use crate::proto::{
    ConstraintProto, CpModelProto, CpObjectiveProto, CumulativeConstraintProto,
    LinearExpressionProto,
};
use crate::semantics::interval_at;
use vstd::string::StringExecFns;
use crate::validity::{
    abs, body_ok, boolean_var, cumulative_ok, interval_refs_ok, constraint_ok, demand_ok, domain_of, domain_well_formed, expr_bound, expr_ok,
    exprs_ok, interval_ref_ok, lemma_min_scaled_bound, lemma_terms_bound_nonneg,
    lemma_terms_bound_prefix, literal_ok, literal_var, literals_ok, magnitude, max, min_scaled,
    model_ok, objective_ok, opt_expr_ok, product_bound, ref_ok, step_ok, sum_bound, terms_bound,
    terms_low, terms_ok, variable_ok, max_scaled, terms_high, lemma_max_scaled_bound, scale_of,
    validation_result,
};

verus! {

/// The largest absolute value among the entries of a flat domain.
fn domain_magnitude(d: &Vec<i64>) -> (r: i128)
    ensures
        r == magnitude(d@),
        0 <= r <= 0x8000_0000_0000_0000,
{
    let mut r: i128 = 0;
    let mut i: usize = 0;
    while i < d.len()
        invariant
            i <= d.len(),
            r == magnitude(d@.subrange(0, i as int)),
            0 <= r <= 0x8000_0000_0000_0000,
        decreases d.len() - i,
    {
        let x = d[i] as i128;
        let a: i128 = if x < 0 { -x } else { x };
        assert(d@.subrange(0, i + 1).drop_last() =~= d@.subrange(0, i as int));
        if a > r {
            r = a;
        }
        i = i + 1;
    }
    assert(d@.subrange(0, d.len() as int) =~= d@);
    r
}

/// `a * b`, computed without overflow.
pub fn mul_wide(a: i64, b: i64) -> (r: i128)
    ensures
        r == a * b,
{
    assert(-0x4000_0000_0000_0000_0000_0000_0000_0000 <= a * b
        <= 0x4000_0000_0000_0000_0000_0000_0000_0000) by (nonlinear_arith)
        requires
            i64::MIN <= a <= i64::MAX,
            i64::MIN <= b <= i64::MAX,
    ;
    a as i128 * b as i128
}

/// The smallest of `c * d[k]` over the entries of a flat domain.
fn domain_min_scaled(c: i64, d: &Vec<i64>) -> (r: i128)
    ensures
        r == min_scaled(c, d@),
{
    if d.len() == 0 {
        return 0;
    }
    let mut r: i128 = mul_wide(c, d[0]);
    assert(d@.subrange(0, 1).len() == 1);
    let mut i: usize = 1;
    while i < d.len()
        invariant
            1 <= i <= d.len(),
            r == min_scaled(c, d@.subrange(0, i as int)),
        decreases d.len() - i,
    {
        let p = mul_wide(c, d[i]);
        assert(d@.subrange(0, i + 1).drop_last() =~= d@.subrange(0, i as int));
        if p < r {
            r = p;
        }
        i = i + 1;
    }
    assert(d@.subrange(0, d.len() as int) =~= d@);
    r
}

/// The largest of `c * d[k]` over the entries of a flat domain.
fn domain_max_scaled(c: i64, d: &Vec<i64>) -> (r: i128)
    ensures
        r == max_scaled(c, d@),
{
    if d.len() == 0 {
        return 0;
    }
    let mut r: i128 = mul_wide(c, d[0]);
    assert(d@.subrange(0, 1).len() == 1);
    let mut i: usize = 1;
    while i < d.len()
        invariant
            1 <= i <= d.len(),
            r == max_scaled(c, d@.subrange(0, i as int)),
        decreases d.len() - i,
    {
        let p = mul_wide(c, d[i]);
        assert(d@.subrange(0, i + 1).drop_last() =~= d@.subrange(0, i as int));
        if p > r {
            r = p;
        }
        i = i + 1;
    }
    assert(d@.subrange(0, d.len() as int) =~= d@);
    r
}

/// Whether a flat domain is well formed.
fn check_domain(d: &Vec<i64>) -> (b: bool)
    ensures
        b == domain_well_formed(d@),
{
    if d.len() % 2 != 0 {
        return false;
    }
    let mut i: usize = 0;
    while i + 1 < d.len()
        invariant
            d.len() % 2 == 0,
            i <= d.len(),
            forall|j: int| 0 <= j < i ==> #[trigger] step_ok(d@, j),
        decreases d.len() - i,
    {
        let ok = if i % 2 == 0 { d[i] <= d[i + 1] } else { d[i] < d[i + 1] };
        if !ok {
            assert(!step_ok(d@, i as int));
            return false;
        }
        i = i + 1;
    }
    true
}

/// Whether every variable of the model has a well-formed, nonempty domain.
fn check_variables(m: &CpModelProto) -> (b: bool)
    ensures
        b == forall|i: int|
            0 <= i < m.variables@.len() ==> #[trigger] variable_ok(m.variables@[i].domain@),
{
    let mut i: usize = 0;
    while i < m.variables.len()
        invariant
            i <= m.variables@.len(),
            forall|j: int| 0 <= j < i ==> #[trigger] variable_ok(m.variables@[j].domain@),
        decreases m.variables.len() - i,
    {
        let d = &m.variables[i].domain;
        if d.len() < 2 || !check_domain(d) {
            assert(!variable_ok(m.variables@[i as int].domain@));
            return false;
        }
        i = i + 1;
    }
    true
}

/// The variable a literal speaks of, if it names one of the model.
fn literal_variable(m: &CpModelProto, lit: i32) -> (r: Option<usize>)
    ensures
        r is Some <==> ref_ok(*m, literal_var(lit)),
        r matches Some(k) ==> k == literal_var(lit),
{
    let v: i64 = if lit >= 0 { lit as i64 } else { -(lit as i64 + 1) };
    if (v as u64) < (m.variables.len() as u64) {
        Some(v as usize)
    } else {
        None
    }
}

/// Whether a literal names a boolean variable of the model.
fn check_literal(m: &CpModelProto, lit: i32) -> (b: bool)
    ensures
        b == literal_ok(*m, lit),
{
    match literal_variable(m, lit) {
        None => false,
        Some(k) => {
            let d = &m.variables[k].domain;
            let mut i: usize = 0;
            while i < d.len()
                invariant
                    k < m.variables@.len(),
                    k == literal_var(lit),
                    d@ == domain_of(*m, k as int),
                    i <= d.len(),
                    forall|j: int| 0 <= j < i ==> 0 <= #[trigger] domain_of(*m, k as int)[j] <= 1,
                decreases d.len() - i,
            {
                if d[i] < 0 || d[i] > 1 {
                    assert(!(0 <= domain_of(*m, k as int)[i as int] <= 1));
                    assert(!boolean_var(*m, literal_var(lit)));
                    return false;
                }
                i = i + 1;
            }
            true
        },
    }
}

fn check_literals(m: &CpModelProto, lits: &Vec<i32>) -> (b: bool)
    ensures
        b == literals_ok(*m, lits@),
{
    let mut i: usize = 0;
    while i < lits.len()
        invariant
            i <= lits.len(),
            forall|j: int| 0 <= j < i ==> #[trigger] literal_ok(*m, lits@[j]),
        decreases lits.len() - i,
    {
        if !check_literal(m, lits[i]) {
            return false;
        }
        i = i + 1;
    }
    true
}

/// The bound of a list of terms, when the terms are well formed.
fn check_terms(m: &CpModelProto, vars: &Vec<i32>, coeffs: &Vec<i64>) -> (r: Option<i64>)
    ensures
        r is Some <==> terms_ok(*m, vars@, coeffs@),
        r matches Some(b) ==> b == terms_bound(*m, vars@, coeffs@),
{
    if vars.len() != coeffs.len() {
        return None;
    }
    let mut acc: i128 = 0;
    let mut i: usize = 0;
    while i < vars.len()
        invariant
            vars.len() == coeffs.len(),
            i <= vars.len(),
            forall|j: int| 0 <= j < i ==> #[trigger] ref_ok(*m, vars@[j] as int),
            acc == terms_bound(*m, vars@.subrange(0, i as int), coeffs@),
            0 <= acc <= i64::MAX,
        decreases vars.len() - i,
    {
        let v = vars[i];
        if v < 0 || v as usize >= m.variables.len() {
            assert(!ref_ok(*m, vars@[i as int] as int));
            return None;
        }
        let mag = domain_magnitude(&m.variables[v as usize].domain);
        let c = coeffs[i] as i128;
        let ca: i128 = if c < 0 { -c } else { c };
        assert(0 <= ca * mag <= 0x8000_0000_0000_0000 * 0x8000_0000_0000_0000) by (nonlinear_arith)
            requires
                0 <= ca <= 0x8000_0000_0000_0000,
                0 <= mag <= 0x8000_0000_0000_0000,
        ;
        let term = ca * mag;
        assert(vars@.subrange(0, i + 1).drop_last() =~= vars@.subrange(0, i as int));
        acc = acc + term;
        i = i + 1;
        if acc > i64::MAX as i128 {
            proof {
                lemma_terms_bound_prefix(*m, vars@, coeffs@, i as int);
            }
            return None;
        }
    }
    assert(vars@.subrange(0, vars.len() as int) =~= vars@);
    Some(acc as i64)
}

/// The bound of an expression, when it is well formed.
fn check_expr(m: &CpModelProto, e: &LinearExpressionProto) -> (r: Option<i64>)
    ensures
        r is Some <==> expr_ok(*m, *e),
        r matches Some(b) ==> b == expr_bound(*m, *e),
{
    match check_terms(m, &e.vars, &e.coeffs) {
        None => None,
        Some(b) => {
            let o = e.offset as i128;
            let oa: i128 = if o < 0 { -o } else { o };
            let total = b as i128 + oa;
            if total > i64::MAX as i128 {
                None
            } else {
                Some(total as i64)
            }
        },
    }
}

fn check_opt_expr(m: &CpModelProto, e: &Option<LinearExpressionProto>) -> (b: bool)
    ensures
        b == opt_expr_ok(*m, *e),
{
    match e {
        None => false,
        Some(e) => check_expr(m, e).is_some(),
    }
}

fn check_exprs(m: &CpModelProto, es: &Vec<LinearExpressionProto>) -> (b: bool)
    ensures
        b == exprs_ok(*m, es@),
{
    let mut i: usize = 0;
    while i < es.len()
        invariant
            i <= es.len(),
            forall|j: int| 0 <= j < i ==> #[trigger] expr_ok(*m, es@[j]),
        decreases es.len() - i,
    {
        if check_expr(m, &es[i]).is_none() {
            return false;
        }
        i = i + 1;
    }
    true
}

/// The product bound of a prefix is at least one and at most that of the whole list.
pub proof fn lemma_product_bound_prefix(m: CpModelProto, es: Seq<LinearExpressionProto>, i: int)
    requires
        0 <= i <= es.len(),
    ensures
        1 <= product_bound(m, es.subrange(0, i)) <= product_bound(m, es),
    decreases es.len(),
{
    if i < es.len() {
        assert(es.drop_last().subrange(0, i) =~= es.subrange(0, i));
        lemma_product_bound_prefix(m, es.drop_last(), i);
        let p = product_bound(m, es.drop_last());
        let f = max(1, expr_bound(m, es.last()));
        assert(p <= p * f) by (nonlinear_arith)
            requires
                p >= 1,
                f >= 1,
        ;
    } else {
        assert(es.subrange(0, i) =~= es);
        lemma_product_bound_ge_one(m, es);
    }
}

proof fn lemma_product_bound_ge_one(m: CpModelProto, es: Seq<LinearExpressionProto>)
    ensures
        product_bound(m, es) >= 1,
    decreases es.len(),
{
    if es.len() > 0 {
        lemma_product_bound_ge_one(m, es.drop_last());
        let p = product_bound(m, es.drop_last());
        let f = max(1, expr_bound(m, es.last()));
        assert(p * f >= 1) by (nonlinear_arith)
            requires
                p >= 1,
                f >= 1,
        ;
    }
}

/// Whether every expression is well formed and their product's bound fits.
fn check_product(m: &CpModelProto, es: &Vec<LinearExpressionProto>) -> (b: bool)
    ensures
        b == (exprs_ok(*m, es@) && product_bound(*m, es@) <= i64::MAX),
{
    let mut acc: i128 = 1;
    let mut i: usize = 0;
    while i < es.len()
        invariant
            i <= es.len(),
            forall|j: int| 0 <= j < i ==> #[trigger] expr_ok(*m, es@[j]),
            acc == product_bound(*m, es@.subrange(0, i as int)),
            1 <= acc <= i64::MAX,
        decreases es.len() - i,
    {
        match check_expr(m, &es[i]) {
            None => {
                return false;
            },
            Some(b) => {
                let f: i128 = if b < 1 { 1 } else { b as i128 };
                assert(es@.subrange(0, i + 1).drop_last() =~= es@.subrange(0, i as int));
                assert(es@.subrange(0, i + 1).last() == es@[i as int]);
                assert(1 <= acc * f <= i64::MAX * i64::MAX) by (nonlinear_arith)
                    requires
                        1 <= acc <= i64::MAX,
                        1 <= f <= i64::MAX,
                ;
                acc = acc * f;
                i = i + 1;
                if acc > i64::MAX as i128 {
                    proof {
                        lemma_product_bound_prefix(*m, es@, i as int);
                    }
                    return false;
                }
            },
        }
    }
    assert(es@.subrange(0, es.len() as int) =~= es@);
    true
}

proof fn lemma_sum_bound_nonneg(m: CpModelProto, es: Seq<LinearExpressionProto>)
    requires
        forall|j: int| 0 <= j < es.len() ==> #[trigger] expr_ok(m, es[j]),
    ensures
        sum_bound(m, es) >= 0,
    decreases es.len(),
{
    if es.len() > 0 {
        assert forall|j: int| 0 <= j < es.drop_last().len() implies #[trigger] expr_ok(
            m,
            es.drop_last()[j],
        ) by {
            assert(expr_ok(m, es[j]));
        }
        lemma_sum_bound_nonneg(m, es.drop_last());
        assert(expr_ok(m, es[es.len() - 1]));
        lemma_terms_bound_nonneg(m, es.last().vars@, es.last().coeffs@);
    }
}

/// The sum bound of a prefix of well-formed expressions is at most that of the whole list.
pub proof fn lemma_sum_bound_prefix(m: CpModelProto, es: Seq<LinearExpressionProto>, i: int)
    requires
        0 <= i <= es.len(),
        forall|j: int| 0 <= j < es.len() ==> #[trigger] expr_ok(m, es[j]),
    ensures
        0 <= sum_bound(m, es.subrange(0, i)) <= sum_bound(m, es),
    decreases es.len(),
{
    if i < es.len() {
        assert(es.drop_last().subrange(0, i) =~= es.subrange(0, i));
        assert forall|j: int| 0 <= j < es.drop_last().len() implies #[trigger] expr_ok(
            m,
            es.drop_last()[j],
        ) by {
            assert(expr_ok(m, es[j]));
        }
        lemma_sum_bound_prefix(m, es.drop_last(), i);
        assert(expr_ok(m, es[es.len() - 1]));
        lemma_terms_bound_nonneg(m, es.last().vars@, es.last().coeffs@);
    } else {
        assert(es.subrange(0, i) =~= es);
        lemma_sum_bound_nonneg(m, es);
    }
}

/// Whether the sum of the expressions' bounds fits, given that each is well formed.
fn check_sum_bound(m: &CpModelProto, es: &Vec<LinearExpressionProto>) -> (b: bool)
    requires
        exprs_ok(*m, es@),
    ensures
        b == (sum_bound(*m, es@) <= i64::MAX),
{
    let mut acc: i128 = 0;
    let mut i: usize = 0;
    while i < es.len()
        invariant
            exprs_ok(*m, es@),
            i <= es.len(),
            acc == sum_bound(*m, es@.subrange(0, i as int)),
            0 <= acc <= i64::MAX,
        decreases es.len() - i,
    {
        let b = check_expr(m, &es[i]);
        assert(expr_ok(*m, es@[i as int]));
        let b = b.unwrap();
        proof {
            lemma_terms_bound_nonneg(*m, es@[i as int].vars@, es@[i as int].coeffs@);
        }
        assert(es@.subrange(0, i + 1).drop_last() =~= es@.subrange(0, i as int));
        assert(es@.subrange(0, i + 1).last() == es@[i as int]);
        acc = acc + b as i128;
        i = i + 1;
        if acc > i64::MAX as i128 {
            proof {
                lemma_sum_bound_prefix(*m, es@, i as int);
            }
            return false;
        }
    }
    assert(es@.subrange(0, es.len() as int) =~= es@);
    true
}

/// The low value of the terms is no larger in absolute value than their bound.
pub proof fn lemma_terms_low_bound(m: CpModelProto, vars: Seq<i32>, coeffs: Seq<i64>)
    ensures
        abs(terms_low(m, vars, coeffs)) <= terms_bound(m, vars, coeffs),
    decreases vars.len(),
{
    if vars.len() > 0 {
        let n = vars.len() - 1;
        lemma_terms_low_bound(m, vars.drop_last(), coeffs);
        lemma_min_scaled_bound(coeffs[n], domain_of(m, vars[n] as int));
    }
}

/// The low value of well-formed terms.
fn terms_low_of(m: &CpModelProto, vars: &Vec<i32>, coeffs: &Vec<i64>) -> (r: i64)
    requires
        terms_ok(*m, vars@, coeffs@),
    ensures
        r == terms_low(*m, vars@, coeffs@),
{
    let mut acc: i128 = 0;
    let mut i: usize = 0;
    while i < vars.len()
        invariant
            terms_ok(*m, vars@, coeffs@),
            i <= vars.len(),
            acc == terms_low(*m, vars@.subrange(0, i as int), coeffs@),
        decreases vars.len() - i,
    {
        let v = vars[i];
        assert(ref_ok(*m, vars@[i as int] as int));
        let low = domain_min_scaled(coeffs[i], &m.variables[v as usize].domain);
        assert(vars@.subrange(0, i + 1).drop_last() =~= vars@.subrange(0, i as int));
        proof {
            lemma_terms_low_bound(*m, vars@.subrange(0, i + 1), coeffs@);
            lemma_terms_low_bound(*m, vars@.subrange(0, i as int), coeffs@);
            lemma_terms_bound_prefix(*m, vars@, coeffs@, i + 1);
            lemma_terms_bound_prefix(*m, vars@, coeffs@, i as int);
        }
        acc = acc + low;
        i = i + 1;
    }
    assert(vars@.subrange(0, vars.len() as int) =~= vars@);
    proof {
        lemma_terms_low_bound(*m, vars@, coeffs@);
    }
    acc as i64
}

/// The high value of the terms is no larger in absolute value than their bound.
pub proof fn lemma_terms_high_bound(m: CpModelProto, vars: Seq<i32>, coeffs: Seq<i64>)
    ensures
        abs(terms_high(m, vars, coeffs)) <= terms_bound(m, vars, coeffs),
    decreases vars.len(),
{
    if vars.len() > 0 {
        let n = vars.len() - 1;
        lemma_terms_high_bound(m, vars.drop_last(), coeffs);
        lemma_max_scaled_bound(coeffs[n], domain_of(m, vars[n] as int));
    }
}

/// The high value of well-formed terms.
fn terms_high_of(m: &CpModelProto, vars: &Vec<i32>, coeffs: &Vec<i64>) -> (r: i64)
    requires
        terms_ok(*m, vars@, coeffs@),
    ensures
        r == terms_high(*m, vars@, coeffs@),
{
    let mut acc: i128 = 0;
    let mut i: usize = 0;
    while i < vars.len()
        invariant
            terms_ok(*m, vars@, coeffs@),
            i <= vars.len(),
            acc == terms_high(*m, vars@.subrange(0, i as int), coeffs@),
        decreases vars.len() - i,
    {
        let v = vars[i];
        assert(ref_ok(*m, vars@[i as int] as int));
        let high = domain_max_scaled(coeffs[i], &m.variables[v as usize].domain);
        assert(vars@.subrange(0, i + 1).drop_last() =~= vars@.subrange(0, i as int));
        proof {
            lemma_terms_high_bound(*m, vars@.subrange(0, i + 1), coeffs@);
            lemma_terms_high_bound(*m, vars@.subrange(0, i as int), coeffs@);
            lemma_terms_bound_prefix(*m, vars@, coeffs@, i + 1);
            lemma_terms_bound_prefix(*m, vars@, coeffs@, i as int);
        }
        acc = acc + high;
        i = i + 1;
    }
    assert(vars@.subrange(0, vars.len() as int) =~= vars@);
    proof {
        lemma_terms_high_bound(*m, vars@, coeffs@);
    }
    acc as i64
}

fn check_demand(m: &CpModelProto, e: &LinearExpressionProto) -> (b: bool)
    ensures
        b == demand_ok(*m, *e),
{
    if check_expr(m, e).is_none() {
        return false;
    }
    let low = terms_low_of(m, &e.vars, &e.coeffs);
    low as i128 + e.offset as i128 >= 0
}

/// Whether `j` is the index of an interval constraint of the model.
fn check_interval_ref(m: &CpModelProto, j: i32) -> (b: bool)
    ensures
        b == interval_ref_ok(*m, j as int),
{
    if j < 0 || j as usize >= m.constraints.len() {
        return false;
    }
    match &m.constraints[j as usize].constraint {
        Some(Constraint::Interval(_)) => true,
        _ => false,
    }
}

fn check_interval_refs(m: &CpModelProto, ints: &Vec<i32>) -> (b: bool)
    ensures
        b == interval_refs_ok(*m, ints@),
{
    let mut i: usize = 0;
    while i < ints.len()
        invariant
            i <= ints.len(),
            forall|j: int| 0 <= j < i ==> #[trigger] interval_ref_ok(*m, ints@[j] as int),
        decreases ints.len() - i,
    {
        if !check_interval_ref(m, ints[i]) {
            return false;
        }
        i = i + 1;
    }
    true
}

fn check_demands(m: &CpModelProto, es: &Vec<LinearExpressionProto>) -> (b: bool)
    ensures
        b == forall|i: int| 0 <= i < es@.len() ==> #[trigger] demand_ok(*m, es@[i]),
{
    let mut i: usize = 0;
    while i < es.len()
        invariant
            i <= es.len(),
            forall|j: int| 0 <= j < i ==> #[trigger] demand_ok(*m, es@[j]),
        decreases es.len() - i,
    {
        if !check_demand(m, &es[i]) {
            return false;
        }
        i = i + 1;
    }
    true
}

fn check_body(m: &CpModelProto, c: &Option<Constraint>) -> (b: bool)
    ensures
        b == body_ok(*m, *c),
{
    match c {
        None => true,
        Some(Constraint::BoolOr(b)) => check_literals(m, &b.literals),
        Some(Constraint::BoolAnd(b)) => check_literals(m, &b.literals),
        Some(Constraint::AtMostOne(b)) => check_literals(m, &b.literals),
        Some(Constraint::ExactlyOne(b)) => check_literals(m, &b.literals),
        Some(Constraint::BoolXor(b)) => check_literals(m, &b.literals),
        Some(Constraint::LinMax(p)) => check_opt_expr(m, &p.target) && check_exprs(m, &p.exprs)
            && p.exprs.len() >= 1,
        Some(Constraint::IntProd(p)) => check_opt_expr(m, &p.target) && check_product(m, &p.exprs),
        Some(Constraint::Linear(l)) => check_terms(m, &l.vars, &l.coeffs).is_some() && check_domain(
            &l.domain,
        ),
        Some(Constraint::AllDiff(d)) => check_exprs(m, &d.exprs),
        Some(Constraint::Interval(iv)) => check_opt_expr(m, &iv.start) && check_opt_expr(
            m,
            &iv.size,
        ) && check_opt_expr(m, &iv.end),
        Some(Constraint::NoOverlap(n)) => check_interval_refs(m, &n.intervals),
        Some(Constraint::Cumulative(c)) => check_cumulative_ok(m, c),
    }
}

fn check_cumulative_ok(m: &CpModelProto, c: &CumulativeConstraintProto) -> (b: bool)
    ensures
        b == cumulative_ok(*m, *c),
{
    if !check_opt_expr(m, &c.capacity) || c.intervals.len() != c.demands.len() {
        return false;
    }
    if !check_interval_refs(m, &c.intervals) || !check_demands(m, &c.demands) {
        return false;
    }
    assert(exprs_ok(*m, c.demands@)) by {
        assert forall|i: int| 0 <= i < c.demands@.len() implies #[trigger] expr_ok(
            *m,
            c.demands@[i],
        ) by {
            assert(demand_ok(*m, c.demands@[i]));
        }
    }
    check_sum_bound(m, &c.demands)
}

fn check_constraint(m: &CpModelProto, c: &ConstraintProto) -> (b: bool)
    ensures
        b == constraint_ok(*m, *c),
{
    check_literals(m, &c.enforcement_literal) && check_body(m, &c.constraint)
}

/// Whether `s * v` lies within `i64`, for `|s| <= 2^63` and `|v| <= 2^64`.
fn scaled_fits(s: i128, v: i128) -> (b: bool)
    requires
        -0x8000_0000_0000_0000 <= s <= 0x8000_0000_0000_0000,
        -0x1_0000_0000_0000_0000 <= v <= 0x1_0000_0000_0000_0000,
    ensures
        b == (i64::MIN <= s * v <= i64::MAX),
{
    if v == -0x1_0000_0000_0000_0000 || v == 0x1_0000_0000_0000_0000 {
        assert(s != 0 ==> (s * v < i64::MIN || s * v > i64::MAX)) by (nonlinear_arith)
            requires
                v == -0x1_0000_0000_0000_0000 || v == 0x1_0000_0000_0000_0000,
        ;
        return s == 0;
    }
    assert(-0x7FFF_FFFF_FFFF_FFFF_8000_0000_0000_0000 <= s * v
        <= 0x7FFF_FFFF_FFFF_FFFF_8000_0000_0000_0000) by (nonlinear_arith)
        requires
            -0x8000_0000_0000_0000 <= s <= 0x8000_0000_0000_0000,
            -0xFFFF_FFFF_FFFF_FFFF <= v <= 0xFFFF_FFFF_FFFF_FFFF,
    ;
    let p = s * v;
    i64::MIN as i128 <= p && p <= i64::MAX as i128
}

fn check_objective(m: &CpModelProto, o: &CpObjectiveProto) -> (b: bool)
    ensures
        b == objective_ok(*m, *o),
{
    if check_terms(m, &o.vars, &o.coeffs).is_none() {
        return false;
    }
    let off = o.offset;
    if off < -0x8000_0000_0000_0000 || off > 0x8000_0000_0000_0000 {
        return false;
    }
    let low = terms_low_of(m, &o.vars, &o.coeffs);
    let high = terms_high_of(m, &o.vars, &o.coeffs);
    let s: i128 = if o.scaling_factor == 0 { 1 } else { o.scaling_factor as i128 };
    scaled_fits(s, low as i128 + off) && scaled_fits(s, high as i128 + off)
}

/// Whether a model is well formed.
pub fn check_model(m: &CpModelProto) -> (b: bool)
    ensures
        b == model_ok(*m),
{
    if !check_variables(m) {
        return false;
    }
    let mut i: usize = 0;
    while i < m.constraints.len()
        invariant
            i <= m.constraints@.len(),
            forall|j: int| 0 <= j < i ==> #[trigger] constraint_ok(*m, m.constraints@[j]),
        decreases m.constraints.len() - i,
    {
        if !check_constraint(m, &m.constraints[i]) {
            return false;
        }
        i = i + 1;
    }
    match &m.objective {
        None => true,
        Some(o) => check_objective(m, o),
    }
}

/// `Ok(())` if the model is well formed, otherwise an explanation of the
/// first part found malformed.
pub fn validate(m: &CpModelProto) -> (r: Result<(), String>)
    ensures
        validation_result(*m, r),
{
    if check_model(m) {
        return Ok(());
    }
    if !check_variables(m) {
        return Err(String::from_str("a variable has an empty or malformed domain"));
    }
    match &m.objective {
        Some(o) => {
            if !check_objective(m, o) {
                return Err(
                    String::from_str(
                        "the objective refers to an unknown variable or may overflow i64",
                    ),
                );
            }
        },
        None => {},
    }
    Err(
        String::from_str(
            "a constraint refers to an unknown variable, literal or interval, or may overflow i64",
        ),
    )
}

} // verus!
