//! Deciding whether an assignment satisfies the constraints of a well-formed
//! model, and computing objective values.

use vstd::prelude::*;

use crate::proto::constraint_proto::Constraint;
use crate::proto::{
    AllDifferentConstraintProto, CpModelProto, CumulativeConstraintProto, IntervalConstraintProto,
    LinearExpressionProto, NoOverlapConstraintProto,
};
use crate::semantics::{
    all_different_holds, all_literals, body_holds, count_true, max_value, cumulative_holds, interval_holds,
    no_overlap_holds, constraint_holds, covers, disjoint, domain_contains, expr_value,
    interval_at, interval_end, interval_present, interval_start, literal_value, load_at,
    feasible, objective_terms, opt_expr_value, pair_contains, product_value, reported_objective,
    some_literal, terms_value, within_domains,
};
use crate::validate::{lemma_product_bound_prefix, lemma_sum_bound_prefix, mul_wide};
use crate::validity::{
    abs, body_ok, constraint_ok, cumulative_ok, interval_ok, interval_refs_ok, demand_ok, expr_bound, expr_ok, exprs_ok, interval_ref_ok,
    lemma_expr_value_bound, lemma_terms_bound_prefix, lemma_terms_value_bounds, literal_ok,
    literal_var, literals_ok, max, model_ok, objective_ok, opt_expr_ok, product_bound, ref_ok,
    sum_bound, terms_bound, terms_ok, terms_high, terms_low,
};

verus! {

/// The value of well-formed terms on an assignment within the domains.
pub fn eval_terms(m: &CpModelProto, vars: &Vec<i32>, coeffs: &Vec<i64>, values: &Vec<i64>) -> (r:
    i64)
    requires
        terms_ok(*m, vars@, coeffs@),
        within_domains(*m, values@),
    ensures
        r == terms_value(vars@, coeffs@, values@),
{
    let mut acc: i128 = 0;
    let mut i: usize = 0;
    while i < vars.len()
        invariant
            terms_ok(*m, vars@, coeffs@),
            within_domains(*m, values@),
            i <= vars.len(),
            acc == terms_value(vars@.subrange(0, i as int), coeffs@, values@),
            abs(acc as int) <= i64::MAX,
        decreases vars.len() - i,
    {
        assert(ref_ok(*m, vars@[i as int] as int));
        let t = mul_wide(coeffs[i], values[vars[i] as usize]);
        let ghost prefix = vars@.subrange(0, i + 1);
        assert(prefix.drop_last() =~= vars@.subrange(0, i as int));
        proof {
            assert forall|j: int| 0 <= j < prefix.len() implies #[trigger] ref_ok(
                *m,
                prefix[j] as int,
            ) by {
                assert(ref_ok(*m, vars@[j] as int));
            }
            lemma_terms_value_bounds(*m, prefix, coeffs@, values@);
            lemma_terms_bound_prefix(*m, vars@, coeffs@, i + 1);
            assert(-0x4000_0000_0000_0000_0000_0000_0000_0000 <= t
                <= 0x4000_0000_0000_0000_0000_0000_0000_0000) by (nonlinear_arith)
                requires
                    t == coeffs@[i as int] * values@[vars@[i as int] as int],
                    i64::MIN <= coeffs@[i as int] <= i64::MAX,
                    i64::MIN <= values@[vars@[i as int] as int] <= i64::MAX,
            ;
        }
        acc = acc + t;
        i = i + 1;
    }
    assert(vars@.subrange(0, vars.len() as int) =~= vars@);
    acc as i64
}

/// The value of a well-formed expression on an assignment within the domains.
pub fn eval_expr(m: &CpModelProto, e: &LinearExpressionProto, values: &Vec<i64>) -> (r: i64)
    requires
        expr_ok(*m, *e),
        within_domains(*m, values@),
    ensures
        r == expr_value(*e, values@),
{
    proof {
        lemma_expr_value_bound(*m, *e, values@);
    }
    let t = eval_terms(m, &e.vars, &e.coeffs, values);
    (t as i128 + e.offset as i128) as i64
}

fn eval_opt_expr(m: &CpModelProto, e: &Option<LinearExpressionProto>, values: &Vec<i64>) -> (r:
    i64)
    requires
        opt_expr_ok(*m, *e),
        within_domains(*m, values@),
    ensures
        r == opt_expr_value(*e, values@),
{
    match e {
        Some(e) => eval_expr(m, e, values),
        None => 0,
    }
}

fn eval_literal(m: &CpModelProto, lit: i32, values: &Vec<i64>) -> (b: bool)
    requires
        literal_ok(*m, lit),
        within_domains(*m, values@),
    ensures
        b == literal_value(lit, values@),
{
    if lit >= 0 {
        values[lit as usize] != 0
    } else {
        values[(-(lit as i64 + 1)) as usize] == 0
    }
}

fn eval_all_literals(m: &CpModelProto, lits: &Vec<i32>, values: &Vec<i64>) -> (b: bool)
    requires
        literals_ok(*m, lits@),
        within_domains(*m, values@),
    ensures
        b == all_literals(lits@, values@),
{
    let mut i: usize = 0;
    while i < lits.len()
        invariant
            literals_ok(*m, lits@),
            within_domains(*m, values@),
            i <= lits.len(),
            forall|j: int| 0 <= j < i ==> #[trigger] literal_value(lits@[j], values@),
        decreases lits.len() - i,
    {
        assert(literal_ok(*m, lits@[i as int]));
        if !eval_literal(m, lits[i], values) {
            return false;
        }
        i = i + 1;
    }
    true
}

fn eval_some_literal(m: &CpModelProto, lits: &Vec<i32>, values: &Vec<i64>) -> (b: bool)
    requires
        literals_ok(*m, lits@),
        within_domains(*m, values@),
    ensures
        b == some_literal(lits@, values@),
{
    let mut i: usize = 0;
    while i < lits.len()
        invariant
            literals_ok(*m, lits@),
            within_domains(*m, values@),
            i <= lits.len(),
            forall|j: int| 0 <= j < i ==> !#[trigger] literal_value(lits@[j], values@),
        decreases lits.len() - i,
    {
        assert(literal_ok(*m, lits@[i as int]));
        if eval_literal(m, lits[i], values) {
            return true;
        }
        i = i + 1;
    }
    false
}

proof fn lemma_product_value_bound(
    m: CpModelProto,
    es: Seq<LinearExpressionProto>,
    values: Seq<i64>,
)
    requires
        exprs_ok(m, es),
        within_domains(m, values),
    ensures
        abs(product_value(es, values)) <= product_bound(m, es),
        product_bound(m, es) >= 1,
    decreases es.len(),
{
    if es.len() > 0 {
        assert forall|j: int| 0 <= j < es.drop_last().len() implies #[trigger] expr_ok(
            m,
            es.drop_last()[j],
        ) by {
            assert(expr_ok(m, es[j]));
        }
        lemma_product_value_bound(m, es.drop_last(), values);
        assert(expr_ok(m, es[es.len() - 1]));
        lemma_expr_value_bound(m, es.last(), values);
        let p = product_value(es.drop_last(), values);
        let pb = product_bound(m, es.drop_last());
        let v = expr_value(es.last(), values);
        let f = max(1, expr_bound(m, es.last()));
        assert(abs(p * v) <= pb * f && pb * f >= 1) by (nonlinear_arith)
            requires
                abs(p) <= pb,
                abs(v) <= f,
                pb >= 1,
                f >= 1,
        ;
    }
}

/// How many literals of the list are true.
fn count_literals(m: &CpModelProto, lits: &Vec<i32>, values: &Vec<i64>) -> (r: usize)
    requires
        literals_ok(*m, lits@),
        within_domains(*m, values@),
    ensures
        r == count_true(lits@, values@),
{
    let mut r: usize = 0;
    let mut i: usize = 0;
    while i < lits.len()
        invariant
            literals_ok(*m, lits@),
            within_domains(*m, values@),
            i <= lits.len(),
            r == count_true(lits@.subrange(0, i as int), values@),
            r <= i,
        decreases lits.len() - i,
    {
        assert(literal_ok(*m, lits@[i as int]));
        assert(lits@.subrange(0, i + 1).drop_last() =~= lits@.subrange(0, i as int));
        if eval_literal(m, lits[i], values) {
            r = r + 1;
        }
        i = i + 1;
    }
    assert(lits@.subrange(0, lits.len() as int) =~= lits@);
    r
}

/// The largest value among a nonempty list of well-formed expressions.
fn eval_max(m: &CpModelProto, es: &Vec<LinearExpressionProto>, values: &Vec<i64>) -> (r: i64)
    requires
        exprs_ok(*m, es@),
        es@.len() >= 1,
        within_domains(*m, values@),
    ensures
        r == max_value(es@, values@),
{
    assert(expr_ok(*m, es@[0]));
    let mut r = eval_expr(m, &es[0], values);
    assert(es@.subrange(0, 1).len() == 1);
    let mut i: usize = 1;
    while i < es.len()
        invariant
            exprs_ok(*m, es@),
            within_domains(*m, values@),
            1 <= i <= es.len(),
            r == max_value(es@.subrange(0, i as int), values@),
        decreases es.len() - i,
    {
        assert(expr_ok(*m, es@[i as int]));
        let v = eval_expr(m, &es[i], values);
        assert(es@.subrange(0, i + 1).drop_last() =~= es@.subrange(0, i as int));
        assert(es@.subrange(0, i + 1).last() == es@[i as int]);
        if r < v {
            r = v;
        }
        i = i + 1;
    }
    assert(es@.subrange(0, es.len() as int) =~= es@);
    r
}

/// The product of well-formed expressions whose product bound fits.
fn eval_product(m: &CpModelProto, es: &Vec<LinearExpressionProto>, values: &Vec<i64>) -> (r: i64)
    requires
        exprs_ok(*m, es@),
        product_bound(*m, es@) <= i64::MAX,
        within_domains(*m, values@),
    ensures
        r == product_value(es@, values@),
{
    let mut acc: i128 = 1;
    let mut i: usize = 0;
    while i < es.len()
        invariant
            exprs_ok(*m, es@),
            product_bound(*m, es@) <= i64::MAX,
            within_domains(*m, values@),
            i <= es.len(),
            acc == product_value(es@.subrange(0, i as int), values@),
            abs(acc as int) <= i64::MAX,
        decreases es.len() - i,
    {
        assert(expr_ok(*m, es@[i as int]));
        let v = eval_expr(m, &es[i], values);
        let ghost prefix = es@.subrange(0, i + 1);
        assert(prefix.drop_last() =~= es@.subrange(0, i as int));
        assert(prefix.last() == es@[i as int]);
        proof {
            assert forall|j: int| 0 <= j < prefix.len() implies #[trigger] expr_ok(
                *m,
                prefix[j],
            ) by {
                assert(expr_ok(*m, es@[j]));
            }
            lemma_product_value_bound(*m, prefix, values@);
            lemma_product_bound_prefix(*m, es@, i + 1);
        }
        acc = acc * v as i128;
        i = i + 1;
    }
    assert(es@.subrange(0, es.len() as int) =~= es@);
    acc as i64
}

/// Whether a value lies in a flat domain.
fn domain_has(d: &Vec<i64>, v: i64) -> (b: bool)
    ensures
        b == domain_contains(d@, v as int),
{
    let mut k: usize = 0;
    while k < d.len() / 2
        invariant
            k <= d.len() / 2,
            forall|j: int| 0 <= j < k ==> !#[trigger] pair_contains(d@, j, v as int),
        decreases d.len() / 2 - k,
    {
        if d[2 * k] <= v && v <= d[2 * k + 1] {
            assert(pair_contains(d@, k as int, v as int));
            return true;
        }
        k = k + 1;
    }
    false
}

/// The constraint at index `j` of a well-formed model is well formed.
proof fn lemma_constraint_ok(m: CpModelProto, j: int)
    requires
        model_ok(m),
        0 <= j < m.constraints@.len(),
    ensures
        constraint_ok(m, m.constraints@[j]),
{
}

/// Presence, start and end of the interval declared by constraint `j`.
fn interval_values(m: &CpModelProto, j: i32, values: &Vec<i64>) -> (r: (bool, i64, i64))
    requires
        model_ok(*m),
        within_domains(*m, values@),
        interval_ref_ok(*m, j as int),
    ensures
        r.0 == interval_present(*m, j as int, values@),
        r.1 == interval_start(*m, j as int, values@),
        r.2 == interval_end(*m, j as int, values@),
{
    let c = &m.constraints[j as usize];
    proof {
        lemma_constraint_ok(*m, j as int);
    }
    let present = eval_all_literals(m, &c.enforcement_literal, values);
    match &c.constraint {
        Some(Constraint::Interval(iv)) => {
            let s = eval_opt_expr(m, &iv.start, values);
            let e = eval_opt_expr(m, &iv.end, values);
            (present, s, e)
        },
        _ => {
            assert(false);
            (present, 0, 0)
        },
    }
}

/// Whether two intervals, if both present, are disjoint.
fn check_disjoint(m: &CpModelProto, i: i32, j: i32, values: &Vec<i64>) -> (b: bool)
    requires
        model_ok(*m),
        within_domains(*m, values@),
        interval_ref_ok(*m, i as int),
        interval_ref_ok(*m, j as int),
    ensures
        b == disjoint(*m, i as int, j as int, values@),
{
    let (pi, si, ei) = interval_values(m, i, values);
    let (pj, sj, ej) = interval_values(m, j, values);
    !(pi && pj) || ei <= sj || ej <= si
}

fn check_no_overlap(m: &CpModelProto, ints: &Vec<i32>, values: &Vec<i64>) -> (b: bool)
    requires
        model_ok(*m),
        within_domains(*m, values@),
        interval_refs_ok(*m, ints@),
    ensures
        b == no_overlap_holds(*m, ints@, values@),
{
    let mut i: usize = 0;
    while i < ints.len()
        invariant
            model_ok(*m),
            within_domains(*m, values@),
            forall|q: int| 0 <= q < ints@.len() ==> #[trigger] interval_ref_ok(*m, ints@[q] as int),
            i <= ints.len(),
            forall|a: int, b: int|
                0 <= a < i && a < b < ints@.len() ==> #[trigger] disjoint(
                    *m,
                    ints@[a] as int,
                    ints@[b] as int,
                    values@,
                ),
        decreases ints.len() - i,
    {
        let mut k: usize = i + 1;
        while k < ints.len()
            invariant
                model_ok(*m),
                within_domains(*m, values@),
                forall|q: int|
                    0 <= q < ints@.len() ==> #[trigger] interval_ref_ok(*m, ints@[q] as int),
                i < ints.len(),
                i < k <= ints.len(),
                forall|a: int, b: int|
                    0 <= a < i && a < b < ints@.len() ==> #[trigger] disjoint(
                        *m,
                        ints@[a] as int,
                        ints@[b] as int,
                        values@,
                    ),
                forall|b: int|
                    i < b < k ==> #[trigger] disjoint(
                        *m,
                        ints@[i as int] as int,
                        ints@[b] as int,
                        values@,
                    ),
            decreases ints.len() - k,
        {
            assert(interval_ref_ok(*m, ints@[i as int] as int));
            assert(interval_ref_ok(*m, ints@[k as int] as int));
            if !check_disjoint(m, ints[i], ints[k], values) {
                return false;
            }
            k = k + 1;
        }
        i = i + 1;
    }
    true
}

fn check_all_different(m: &CpModelProto, es: &Vec<LinearExpressionProto>, values: &Vec<i64>) -> (b:
    bool)
    requires
        within_domains(*m, values@),
        exprs_ok(*m, es@),
    ensures
        b == all_different_holds(es@, values@),
{
    let mut vals: Vec<i64> = Vec::new();
    let mut i: usize = 0;
    while i < es.len()
        invariant
            within_domains(*m, values@),
            exprs_ok(*m, es@),
            i <= es.len(),
            vals@.len() == i,
            forall|k: int| 0 <= k < i ==> vals@[k] == expr_value(#[trigger] es@[k], values@),
        decreases es.len() - i,
    {
        assert(expr_ok(*m, es@[i as int]));
        let v = eval_expr(m, &es[i], values);
        vals.push(v);
        i = i + 1;
    }
    let mut i: usize = 0;
    while i < vals.len()
        invariant
            vals@.len() == es@.len(),
            forall|k: int| 0 <= k < vals@.len() ==> vals@[k] == expr_value(#[trigger] es@[k], values@),
            i <= vals.len(),
            forall|a: int, b: int|
                0 <= a < i && a < b < es@.len() ==> #[trigger] expr_value(es@[a], values@)
                    != #[trigger] expr_value(es@[b], values@),
        decreases vals.len() - i,
    {
        let mut k: usize = i + 1;
        while k < vals.len()
            invariant
                    vals@.len() == es@.len(),
                forall|q: int|
                    0 <= q < vals@.len() ==> vals@[q] == expr_value(#[trigger] es@[q], values@),
                i < vals.len(),
                i < k <= vals.len(),
                forall|a: int, b: int|
                    0 <= a < i && a < b < es@.len() ==> #[trigger] expr_value(es@[a], values@)
                        != #[trigger] expr_value(es@[b], values@),
                forall|b: int|
                    i < b < k ==> expr_value(es@[i as int], values@) != #[trigger] expr_value(
                        es@[b],
                        values@,
                    ),
            decreases vals.len() - k,
        {
            assert(vals@[i as int] == expr_value(es@[i as int], values@));
            assert(vals@[k as int] == expr_value(es@[k as int], values@));
            if vals[i] == vals[k] {
                return false;
            }
            k = k + 1;
        }
        i = i + 1;
    }
    true
}

/// Whether the load at the start of the `q`-th listed interval was checked
/// against the capacity: it must be, when that interval is present and nonempty.
pub open spec fn start_checked(
    m: CpModelProto,
    c: CumulativeConstraintProto,
    q: int,
    values: Seq<i64>,
) -> bool {
    let j = c.intervals@[q] as int;
    (interval_present(m, j, values) && interval_start(m, j, values) < interval_end(m, j, values))
        ==> load_at(m, c.intervals@, c.demands@, interval_start(m, j, values), values)
        <= opt_expr_value(c.capacity, values)
}

/// Among the listed intervals that cover `t`, one that starts last; `-1` when
/// none covers `t`.
proof fn lemma_latest_cover(m: CpModelProto, ints: Seq<i32>, t: int, values: Seq<i64>) -> (p: int)
    ensures
        -1 <= p < ints.len(),
        p == -1 ==> forall|q: int|
            0 <= q < ints.len() ==> !#[trigger] covers(m, ints[q] as int, t, values),
        p >= 0 ==> covers(m, ints[p] as int, t, values),
        p >= 0 ==> forall|q: int|
            0 <= q < ints.len() && #[trigger] covers(m, ints[q] as int, t, values)
                ==> interval_start(m, ints[q] as int, values) <= interval_start(
                m,
                ints[p] as int,
                values,
            ),
    decreases ints.len(),
{
    if ints.len() == 0 {
        -1
    } else {
        let pre = ints.drop_last();
        let n = ints.len() - 1;
        let p0 = lemma_latest_cover(m, pre, t, values);
        assert(forall|q: int| 0 <= q < n ==> pre[q] == ints[q]);
        if covers(m, ints[n] as int, t, values) {
            if p0 == -1 || interval_start(m, ints[p0] as int, values) <= interval_start(
                m,
                ints[n] as int,
                values,
            ) {
                assert forall|q: int|
                    0 <= q < ints.len() && #[trigger] covers(
                        m,
                        ints[q] as int,
                        t,
                        values,
                    ) implies interval_start(m, ints[q] as int, values) <= interval_start(
                    m,
                    ints[n] as int,
                    values,
                ) by {
                    if q < n {
                        assert(covers(m, pre[q] as int, t, values));
                    }
                }
                n
            } else {
                assert forall|q: int|
                    0 <= q < ints.len() && #[trigger] covers(
                        m,
                        ints[q] as int,
                        t,
                        values,
                    ) implies interval_start(m, ints[q] as int, values) <= interval_start(
                    m,
                    ints[p0] as int,
                    values,
                ) by {
                    if q < n {
                        assert(covers(m, pre[q] as int, t, values));
                    }
                }
                p0
            }
        } else {
            if p0 >= 0 {
                assert forall|q: int|
                    0 <= q < ints.len() && #[trigger] covers(
                        m,
                        ints[q] as int,
                        t,
                        values,
                    ) implies interval_start(m, ints[q] as int, values) <= interval_start(
                    m,
                    ints[p0] as int,
                    values,
                ) by {
                    if q < n {
                        assert(covers(m, pre[q] as int, t, values));
                    }
                }
            } else {
                assert forall|q: int|
                    0 <= q < ints.len() implies !#[trigger] covers(m, ints[q] as int, t, values) by {
                    if q < n {
                        assert(!covers(m, pre[q] as int, t, values));
                    }
                }
            }
            p0
        }
    }
}

/// No interval covers `t`: the load there is zero.
proof fn lemma_load_zero(
    m: CpModelProto,
    ints: Seq<i32>,
    demands: Seq<LinearExpressionProto>,
    t: int,
    values: Seq<i64>,
)
    requires
        forall|q: int| 0 <= q < ints.len() ==> !#[trigger] covers(m, ints[q] as int, t, values),
    ensures
        load_at(m, ints, demands, t, values) == 0,
    decreases ints.len(),
{
    if ints.len() > 0 {
        let pre = ints.drop_last();
        assert forall|q: int| 0 <= q < pre.len() implies !#[trigger] covers(
            m,
            pre[q] as int,
            t,
            values,
        ) by {
            assert(!covers(m, ints[q] as int, t, values));
        }
        lemma_load_zero(m, pre, demands, t, values);
        assert(!covers(m, ints[ints.len() - 1] as int, t, values));
    }
}

/// With nonnegative demands, a time covered by no more intervals carries no
/// more load.
proof fn lemma_load_mono(
    m: CpModelProto,
    ints: Seq<i32>,
    demands: Seq<LinearExpressionProto>,
    t1: int,
    t2: int,
    values: Seq<i64>,
)
    requires
        ints.len() <= demands.len(),
        forall|q: int|
            0 <= q < ints.len() && #[trigger] covers(m, ints[q] as int, t1, values) ==> covers(
                m,
                ints[q] as int,
                t2,
                values,
            ),
        forall|q: int| 0 <= q < ints.len() ==> expr_value(#[trigger] demands[q], values) >= 0,
    ensures
        load_at(m, ints, demands, t1, values) <= load_at(m, ints, demands, t2, values),
    decreases ints.len(),
{
    if ints.len() > 0 {
        let pre = ints.drop_last();
        let n = ints.len() - 1;
        assert forall|q: int|
            0 <= q < pre.len() && #[trigger] covers(m, pre[q] as int, t1, values) implies covers(
            m,
            pre[q] as int,
            t2,
            values,
        ) by {
            assert(covers(m, ints[q] as int, t1, values));
        }
        assert forall|q: int| 0 <= q < pre.len() implies expr_value(
            #[trigger] demands[q],
            values,
        ) >= 0 by {
            assert(expr_value(demands[q], values) >= 0);
        }
        lemma_load_mono(m, pre, demands, t1, t2, values);
        assert(expr_value(demands[n], values) >= 0);
        if covers(m, ints[n] as int, t1, values) {
            assert(covers(m, ints[n] as int, t2, values));
        }
    }
}

/// The load at time `t` of a well-formed cumulative constraint.
fn eval_load(m: &CpModelProto, c: &CumulativeConstraintProto, t: i64, values: &Vec<i64>) -> (r: i64)
    requires
        model_ok(*m),
        within_domains(*m, values@),
        cumulative_ok(*m, *c),
    ensures
        r == load_at(*m, c.intervals@, c.demands@, t as int, values@),
{
    let ints = &c.intervals;
    let ds = &c.demands;
    assert(exprs_ok(*m, ds@)) by {
        assert forall|q: int| 0 <= q < ds@.len() implies #[trigger] expr_ok(*m, ds@[q]) by {
            assert(demand_ok(*m, ds@[q]));
        }
    }
    let mut acc: i128 = 0;
    let mut i: usize = 0;
    while i < ints.len()
        invariant
            model_ok(*m),
            within_domains(*m, values@),
            cumulative_ok(*m, *c),
            exprs_ok(*m, ds@),
            ints == &c.intervals,
            ds == &c.demands,
            i <= ints.len(),
            acc == load_at(*m, ints@.subrange(0, i as int), ds@, t as int, values@),
            0 <= acc <= sum_bound(*m, ds@.subrange(0, i as int)),
        decreases ints.len() - i,
    {
        assert(interval_ref_ok(*m, ints@[i as int] as int));
        let (p, s, e) = interval_values(m, ints[i], values);
        assert(demand_ok(*m, ds@[i as int]));
        let d = eval_expr(m, &ds[i], values);
        proof {
            lemma_expr_value_bound(*m, ds@[i as int], values@);
            lemma_sum_bound_prefix(*m, ds@, i + 1);
        }
        assert(ints@.subrange(0, i + 1).drop_last() =~= ints@.subrange(0, i as int));
        assert(ds@.subrange(0, i + 1).drop_last() =~= ds@.subrange(0, i as int));
        assert(ds@.subrange(0, i + 1).last() == ds@[i as int]);
        if p && s <= t && t < e {
            acc = acc + d as i128;
        }
        i = i + 1;
    }
    assert(ints@.subrange(0, ints.len() as int) =~= ints@);
    proof {
        lemma_sum_bound_prefix(*m, ds@, ints.len() as int);
    }
    acc as i64
}

/// Whether a well-formed cumulative constraint holds.
fn check_cumulative(m: &CpModelProto, c: &CumulativeConstraintProto, values: &Vec<i64>) -> (b:
    bool)
    requires
        model_ok(*m),
        within_domains(*m, values@),
        cumulative_ok(*m, *c),
    ensures
        b == cumulative_holds(*m, *c, values@),
{
    let cap = eval_opt_expr(m, &c.capacity, values);
    if cap < 0 {
        return false;
    }
    let ints = &c.intervals;
    let mut k: usize = 0;
    while k < ints.len()
        invariant
            model_ok(*m),
            within_domains(*m, values@),
            cumulative_ok(*m, *c),
            ints == &c.intervals,
            cap == opt_expr_value(c.capacity, values@),
            k <= ints.len(),
            forall|q: int| 0 <= q < k ==> #[trigger] start_checked(*m, *c, q, values@),
        decreases ints.len() - k,
    {
        assert(interval_ref_ok(*m, ints@[k as int] as int));
        let (p, s, e) = interval_values(m, ints[k], values);
        if p && s < e {
            let l = eval_load(m, c, s, values);
            if l > cap {
                return false;
            }
        }
        assert(start_checked(*m, *c, k as int, values@));
        k = k + 1;
    }
    assert forall|t: int| #[trigger]
        load_at(*m, c.intervals@, c.demands@, t, values@) <= cap by {
        let p = lemma_latest_cover(*m, c.intervals@, t, values@);
        if p == -1 {
            lemma_load_zero(*m, c.intervals@, c.demands@, t, values@);
        } else {
            let j = c.intervals@[p] as int;
            let s = interval_start(*m, j, values@);
            assert(start_checked(*m, *c, p, values@));
            assert forall|q: int| 0 <= q < c.demands@.len() implies expr_value(
                #[trigger] c.demands@[q],
                values@,
            ) >= 0 by {
                assert(demand_ok(*m, c.demands@[q]));
                lemma_expr_value_bound(*m, c.demands@[q], values@);
            }
            assert forall|q: int|
                0 <= q < c.intervals@.len() && #[trigger] covers(
                    *m,
                    c.intervals@[q] as int,
                    t,
                    values@,
                ) implies covers(*m, c.intervals@[q] as int, s, values@) by {}
            lemma_load_mono(*m, c.intervals@, c.demands@, t, s, values@);
        }
    }
    true
}

/// Whether a well-formed interval constraint holds.
fn check_interval(m: &CpModelProto, iv: &IntervalConstraintProto, values: &Vec<i64>) -> (b: bool)
    requires
        within_domains(*m, values@),
        interval_ok(*m, *iv),
    ensures
        b == interval_holds(*iv, values@),
{
    let s = eval_opt_expr(m, &iv.start, values);
    let z = eval_opt_expr(m, &iv.size, values);
    let e = eval_opt_expr(m, &iv.end, values);
    s as i128 + z as i128 == e as i128 && z >= 0
}

/// Whether the body of a well-formed constraint holds.
fn check_body(m: &CpModelProto, c: &Option<Constraint>, values: &Vec<i64>) -> (b: bool)
    requires
        model_ok(*m),
        within_domains(*m, values@),
        body_ok(*m, *c),
    ensures
        b == body_holds(*m, *c, values@),
{
    match c {
        None => true,
        Some(Constraint::BoolOr(b)) => eval_some_literal(m, &b.literals, values),
        Some(Constraint::BoolAnd(b)) => eval_all_literals(m, &b.literals, values),
        Some(Constraint::AtMostOne(b)) => count_literals(m, &b.literals, values) <= 1,
        Some(Constraint::ExactlyOne(b)) => count_literals(m, &b.literals, values) == 1,
        Some(Constraint::BoolXor(b)) => count_literals(m, &b.literals, values) % 2 == 1,
        Some(Constraint::LinMax(p)) => {
            let t = eval_opt_expr(m, &p.target, values);
            let v = eval_max(m, &p.exprs, values);
            t == v
        },
        Some(Constraint::IntProd(p)) => {
            let t = eval_opt_expr(m, &p.target, values);
            let v = eval_product(m, &p.exprs, values);
            t == v
        },
        Some(Constraint::Linear(l)) => {
            let v = eval_terms(m, &l.vars, &l.coeffs, values);
            domain_has(&l.domain, v)
        },
        Some(Constraint::AllDiff(d)) => check_all_different(m, &d.exprs, values),
        Some(Constraint::Interval(iv)) => check_interval(m, iv, values),
        Some(Constraint::NoOverlap(n)) => check_no_overlap(m, &n.intervals, values),
        Some(Constraint::Cumulative(c)) => check_cumulative(m, c, values),
    }
}

/// Whether every constraint of a well-formed model holds on an assignment
/// within the domains: whether the assignment is a solution.
pub fn check_assignment(m: &CpModelProto, values: &Vec<i64>) -> (b: bool)
    requires
        model_ok(*m),
        within_domains(*m, values@),
    ensures
        b == feasible(*m, values@),
{
    let mut i: usize = 0;
    while i < m.constraints.len()
        invariant
            model_ok(*m),
            within_domains(*m, values@),
            i <= m.constraints@.len(),
            forall|j: int| 0 <= j < i ==> #[trigger] constraint_holds(*m, m.constraints@[j], values@),
        decreases m.constraints.len() - i,
    {
        let c = &m.constraints[i];
        proof {
            lemma_constraint_ok(*m, i as int);
        }
        let enforced = eval_all_literals(m, &c.enforcement_literal, values);
        if enforced && !check_body(m, &c.constraint, values) {
            assert(!constraint_holds(*m, m.constraints@[i as int], values@));
            return false;
        }
        i = i + 1;
    }
    true
}

/// The quantity the solver minimises, on an assignment within the domains.
pub fn eval_objective(m: &CpModelProto, values: &Vec<i64>) -> (r: i64)
    requires
        model_ok(*m),
        within_domains(*m, values@),
    ensures
        r == objective_terms(*m, values@),
{
    match &m.objective {
        None => 0,
        Some(o) => eval_terms(m, &o.vars, &o.coeffs, values),
    }
}

/// The objective value a response reports for an assignment within the domains.
pub fn eval_reported_objective(m: &CpModelProto, values: &Vec<i64>) -> (r: i64)
    requires
        model_ok(*m),
        within_domains(*m, values@),
    ensures
        r == reported_objective(*m, values@),
{
    match &m.objective {
        None => 0,
        Some(o) => {
            let t = eval_terms(m, &o.vars, &o.coeffs, values);
            let s: i128 = if o.scaling_factor == 0 { 1 } else { o.scaling_factor as i128 };
            proof {
                lemma_terms_value_bounds(*m, o.vars@, o.coeffs@, values@);
                let lo = terms_low(*m, o.vars@, o.coeffs@) + o.offset;
                let hi = terms_high(*m, o.vars@, o.coeffs@) + o.offset;
                let inner = t + o.offset;
                let ss = s as int;
                assert((ss * lo <= ss * inner <= ss * hi) || (ss * hi <= ss * inner <= ss * lo))
                    by (nonlinear_arith)
                    requires
                        lo <= inner <= hi,
                ;
            }
            let r = s * (t as i128 + o.offset as i128);
            r as i64
        },
    }
}

} // verus!
