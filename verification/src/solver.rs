//! An exhaustive solver: every assignment within the domains is visited, in
//! lexicographic order, until the answer is known.

use vstd::prelude::*;

use crate::check::{check_assignment, eval_objective, eval_reported_objective};
use crate::proto::{CpModelProto, CpSolverResponse, CpSolverStatus, SatParameters};
use crate::semantics::{
    domain_contains, feasible, objective_terms, optimal, pair_contains, reported_objective,
    within_domains,
};
use crate::validate::check_model;
use crate::validity::{model_ok, step_ok, variable_ok};

verus! {

/// `a` is a complete assignment within the domains that starts with `prefix`.
pub open spec fn completion(m: CpModelProto, prefix: Seq<i64>, a: Seq<i64>) -> bool {
    &&& within_domains(m, a)
    &&& prefix.len() <= a.len()
    &&& forall|i: int| 0 <= i < prefix.len() ==> a[i] == prefix[i]
}

/// Every value of the prefix lies in its variable's domain.
pub open spec fn prefix_ok(m: CpModelProto, prefix: Seq<i64>) -> bool {
    &&& prefix.len() <= m.variables@.len()
    &&& forall|i: int|
        0 <= i < prefix.len() ==> #[trigger] domain_contains(
            m.variables@[i].domain@,
            prefix[i] as int,
        )
}

/// The incumbent is a solution and `obj` is its objective.
pub open spec fn incumbent_ok(m: CpModelProto, best: Option<Vec<i64>>, obj: i64) -> bool {
    match best {
        Some(s) => feasible(m, s@) && obj == objective_terms(m, s@),
        None => true,
    }
}

/// `s` and `t` agree before position `i` and `s` is smaller at `i`.
pub open spec fn lex_less_at(s: Seq<i64>, t: Seq<i64>, i: int) -> bool {
    &&& 0 <= i < s.len()
    &&& i < t.len()
    &&& s[i] < t[i]
    &&& forall|j: int| 0 <= j < i ==> s[j] == t[j]
}

/// `s` comes before `t` in lexicographic order.
pub open spec fn lex_less(s: Seq<i64>, t: Seq<i64>) -> bool {
    exists|i: int| #[trigger] lex_less_at(s, t, i)
}

/// Nothing comes before itself, and of two sequences at most one comes first.
pub proof fn lemma_lex_less_asymmetric(s: Seq<i64>, t: Seq<i64>)
    ensures
        lex_less(s, t) ==> !lex_less(t, s),
        !lex_less(s, s),
{
    if lex_less(s, t) && lex_less(t, s) {
        let i = choose|i: int| #[trigger] lex_less_at(s, t, i);
        let j = choose|j: int| #[trigger] lex_less_at(t, s, j);
        if i < j {
            assert(t[i] == s[i]);
        } else if j < i {
            assert(s[j] == t[j]);
        }
    }
}

/// Of two different sequences of one length, one comes first.
pub proof fn lemma_lex_less_total(s: Seq<i64>, t: Seq<i64>)
    requires
        s.len() == t.len(),
        s != t,
    ensures
        lex_less(s, t) || lex_less(t, s),
    decreases s.len(),
{
    if s.len() == 0 {
        assert(s =~= t);
    } else if s[0] != t[0] {
        if s[0] < t[0] {
            assert(lex_less_at(s, t, 0));
        } else {
            assert(lex_less_at(t, s, 0));
        }
    } else {
        let s1 = s.drop_first();
        let t1 = t.drop_first();
        if s1 == t1 {
            assert(s =~= t) by {
                assert forall|i: int| 0 <= i < s.len() implies s[i] == t[i] by {
                    if i > 0 {
                        assert(s[i] == s1[i - 1] && t[i] == t1[i - 1]);
                    }
                }
            }
        }
        lemma_lex_less_total(s1, t1);
        if lex_less(s1, t1) {
            let i = choose|i: int| #[trigger] lex_less_at(s1, t1, i);
            assert(lex_less_at(s, t, i + 1)) by {
                assert forall|j: int| 0 <= j < i + 1 implies s[j] == t[j] by {
                    if j > 0 {
                        assert(s[j] == s1[j - 1] && t[j] == t1[j - 1]);
                    }
                }
            }
        } else {
            let i = choose|i: int| #[trigger] lex_less_at(t1, s1, i);
            assert(lex_less_at(t, s, i + 1)) by {
                assert forall|j: int| 0 <= j < i + 1 implies t[j] == s[j] by {
                    if j > 0 {
                        assert(s[j] == s1[j - 1] && t[j] == t1[j - 1]);
                    }
                }
            }
        }
    }
}

/// The incumbent is at least as good as `a`, and on a tie of the objective (or
/// when not optimising) `a` does not come before it.
pub open spec fn beats(
    m: CpModelProto,
    best: Option<Vec<i64>>,
    obj: i64,
    optimize: bool,
    a: Seq<i64>,
) -> bool {
    &&& best is Some
    &&& optimize ==> obj <= objective_terms(m, a)
    &&& (!optimize || obj == objective_terms(m, a)) ==> !lex_less(a, best->0@)
}

/// The incumbent beats every solution among the completions of `prefix` that
/// `seen` selects.
pub open spec fn accounts_for(
    m: CpModelProto,
    prefix: Seq<i64>,
    seen: spec_fn(Seq<i64>) -> bool,
    best: Option<Vec<i64>>,
    obj: i64,
    optimize: bool,
) -> bool {
    forall|a: Seq<i64>|
        #[trigger] completion(m, prefix, a) && feasible(m, a) && seen(a) ==> beats(
            m,
            best,
            obj,
            optimize,
            a,
        )
}

/// The incumbent stayed as it was, or a first one was found, or, when
/// optimising, a strictly better one.
pub open spec fn improved(
    old_best: Option<Vec<i64>>,
    old_obj: i64,
    best: Option<Vec<i64>>,
    obj: i64,
    optimize: bool,
) -> bool {
    ||| (best == old_best && obj == old_obj)
    ||| (best is Some && (old_best is None || (optimize && obj < old_obj)))
}

/// A solution that beat `a` still does after the incumbent improved.
proof fn lemma_beats_improved(
    m: CpModelProto,
    b1: Option<Vec<i64>>,
    o1: i64,
    b2: Option<Vec<i64>>,
    o2: i64,
    optimize: bool,
    a: Seq<i64>,
)
    requires
        beats(m, b1, o1, optimize, a),
        improved(b1, o1, b2, o2, optimize),
    ensures
        beats(m, b2, o2, optimize, a),
{
}

/// Every completion of `prefix` comes after the incumbent.
pub open spec fn ahead(m: CpModelProto, prefix: Seq<i64>, best: Option<Vec<i64>>) -> bool {
    best is Some ==> forall|a: Seq<i64>| #[trigger]
        completion(m, prefix, a) ==> lex_less(best->0@, a)
}

/// One of the first `p` pairs of the flat domain holds `x`.
pub open spec fn in_first_pairs(d: Seq<i64>, p: int, x: int) -> bool {
    exists|j: int| 0 <= j < p && #[trigger] pair_contains(d, j, x)
}

proof fn lemma_completion_push(m: CpModelProto, prefix: Seq<i64>, v: i64, a: Seq<i64>)
    ensures
        completion(m, prefix.push(v), a) <==> (completion(m, prefix, a) && prefix.len() < a.len()
            && a[prefix.len() as int] == v),
{
    let q = prefix.push(v);
    if completion(m, prefix, a) && prefix.len() < a.len() && a[prefix.len() as int] == v {
        assert forall|i: int| 0 <= i < q.len() implies a[i] == q[i] by {
            if i < prefix.len() {
                assert(a[i] == prefix[i]);
            }
        }
    }
    if completion(m, q, a) {
        assert forall|i: int| 0 <= i < prefix.len() implies a[i] == prefix[i] by {
            assert(a[i] == q[i]);
        }
        assert(a[prefix.len() as int] == q[prefix.len() as int]);
    }
}

/// Visit every completion of `prefix`, in lexicographic order, keeping the
/// best solution found, and the first among equally good ones.
///
/// When `optimize` is false the search stops at the first solution.
fn search(
    m: &CpModelProto,
    prefix: &mut Vec<i64>,
    best: &mut Option<Vec<i64>>,
    best_obj: &mut i64,
    optimize: bool,
)
    requires
        model_ok(*m),
        prefix_ok(*m, old(prefix)@),
        incumbent_ok(*m, *old(best), *old(best_obj)),
        ahead(*m, old(prefix)@, *old(best)),
    ensures
        final(prefix)@ == old(prefix)@,
        incumbent_ok(*m, *final(best), *final(best_obj)),
        improved(*old(best), *old(best_obj), *final(best), *final(best_obj), optimize),
        *final(best) == *old(best) || ((*final(best)) is Some && completion(
            *m,
            old(prefix)@,
            (*final(best))->0@,
        )),
        accounts_for(
            *m,
            old(prefix)@,
            |a: Seq<i64>| true,
            *final(best),
            *final(best_obj),
            optimize,
        ),
    decreases m.variables@.len() - prefix@.len(),
{
    let ghost pre = prefix@;
    if !optimize && best.is_some() {
        proof {
            assert forall|a: Seq<i64>|
                #[trigger] completion(*m, pre, a) && feasible(*m, a) implies beats(
                *m,
                *best,
                *best_obj,
                optimize,
                a,
            ) by {
                lemma_lex_less_asymmetric((*best)->0@, a);
            }
        }
        return;
    }
    let k = prefix.len();
    if k == m.variables.len() {
        assert(within_domains(*m, prefix@));
        let ghost best_in = *best;
        let ok = check_assignment(m, prefix);
        if ok {
            let obj = eval_objective(m, prefix);
            let better = match best {
                None => true,
                Some(_) => optimize && obj < *best_obj,
            };
            if better {
                *best = Some(prefix.clone());
                *best_obj = obj;
            }
        }
        assert forall|a: Seq<i64>| #[trigger] completion(*m, pre, a) implies a == pre by {
            assert(a =~= pre);
        }
        proof {
            lemma_lex_less_asymmetric(pre, pre);
            if best_in is Some {
                lemma_lex_less_asymmetric(best_in->0@, pre);
                assert(completion(*m, pre, pre));
            }
        }
        return;
    }
    let d = &m.variables[k].domain;
    let ghost d0 = d@;
    let ghost best0 = *best;
    let ghost obj0 = *best_obj;
    let dlen = d.len();
    let npairs = dlen / 2;
    let mut p: usize = 0;
    while p < npairs
        invariant
            model_ok(*m),
            k == pre.len(),
            k < m.variables@.len(),
            prefix_ok(*m, pre),
            pre == old(prefix)@,
            prefix@ == pre,
            d@ == d0,
            d0 == m.variables@[k as int].domain@,
            dlen == d0.len(),
            npairs == d0.len() / 2,
            p <= npairs,
            ahead(*m, pre, best0),
            incumbent_ok(*m, *best, *best_obj),
            improved(best0, obj0, *best, *best_obj, optimize),
            *best == best0 || ((*best) is Some && completion(*m, pre, (*best)->0@) && p > 0
                && (*best)->0@[k as int] <= d0[2 * p - 1]),
            accounts_for(
                *m,
                pre,
                |a: Seq<i64>| in_first_pairs(d0, p as int, a[k as int] as int),
                *best,
                *best_obj,
                optimize,
            ),
        decreases npairs - p,
    {
        assert(2 * p + 1 < d0.len());
        assert(variable_ok(m.variables@[k as int].domain@));
        assert(step_ok(d0, 2 * p as int));
        if p > 0 {
            assert(step_ok(d0, 2 * p - 1));
        }
        let lo = d[2 * p];
        let hi = d[2 * p + 1];
        let mut v: i128 = lo as i128;
        while v <= hi as i128
            invariant
                model_ok(*m),
                k == pre.len(),
                k < m.variables@.len(),
                prefix_ok(*m, pre),
                pre == old(prefix)@,
                prefix@ == pre,
                d@ == d0,
                d0 == m.variables@[k as int].domain@,
                dlen == d0.len(),
                npairs == d0.len() / 2,
                p < npairs,
                lo == d0[2 * p],
                hi == d0[2 * p + 1],
                lo <= v <= hi + 1,
                ahead(*m, pre, best0),
                incumbent_ok(*m, *best, *best_obj),
                improved(best0, obj0, *best, *best_obj, optimize),
                *best == best0 || ((*best) is Some && completion(*m, pre, (*best)->0@)
                    && (*best)->0@[k as int] < v),
                accounts_for(
                    *m,
                    pre,
                    |a: Seq<i64>|
                        in_first_pairs(d0, p as int, a[k as int] as int) || (lo <= a[k as int] < v),
                    *best,
                    *best_obj,
                    optimize,
                ),
            decreases hi + 1 - v,
        {
            let ghost best1 = *best;
            let ghost obj1 = *best_obj;
            let x = v as i64;
            assert(pair_contains(d0, p as int, x as int));
            prefix.push(x);
            assert(prefix_ok(*m, prefix@)) by {
                assert forall|i: int| 0 <= i < prefix@.len() implies #[trigger] domain_contains(
                    m.variables@[i].domain@,
                    prefix@[i] as int,
                ) by {
                    if i < k {
                        assert(domain_contains(m.variables@[i].domain@, pre[i] as int));
                    }
                }
            }
            assert(prefix@.len() == k + 1);
            assert(ahead(*m, prefix@, *best)) by {
                if (*best) is Some {
                    assert forall|a: Seq<i64>| #[trigger]
                        completion(*m, prefix@, a) implies lex_less((*best)->0@, a) by {
                        lemma_completion_push(*m, pre, x, a);
                        if *best == best0 {
                        } else {
                            let b = (*best)->0@;
                            assert forall|j: int| 0 <= j < k implies b[j] == a[j] by {
                                assert(b[j] == pre[j]);
                                assert(a[j] == pre[j]);
                            }
                            assert(lex_less_at(b, a, k as int));
                        }
                    }
                }
            }
            search(m, prefix, best, best_obj, optimize);
            prefix.pop();
            assert(prefix@ =~= pre);
            proof {
                let seen_old = |a: Seq<i64>|
                    in_first_pairs(d0, p as int, a[k as int] as int) || (lo <= a[k as int] < v);
                let seen_new = |a: Seq<i64>|
                    in_first_pairs(d0, p as int, a[k as int] as int) || (lo <= a[k as int] < v
                        + 1);
                assert forall|a: Seq<i64>|
                    #[trigger] completion(*m, pre, a) && feasible(*m, a) && seen_new(
                        a,
                    ) implies beats(*m, *best, *best_obj, optimize, a) by {
                    lemma_completion_push(*m, pre, x, a);
                    if a[k as int] == x {
                        assert(completion(*m, pre.push(x), a));
                    } else {
                        assert(seen_old(a));
                        lemma_beats_improved(*m, best1, obj1, *best, *best_obj, optimize, a);
                    }
                }
                if *best != best1 {
                    lemma_completion_push(*m, pre, x, (*best)->0@);
                }
            }
            v = v + 1;
        }
        proof {
            assert forall|a: Seq<i64>|
                #[trigger] completion(*m, pre, a) && feasible(*m, a) && in_first_pairs(
                    d0,
                    p + 1,
                    a[k as int] as int,
                ) implies beats(*m, *best, *best_obj, optimize, a) by {
                let j = choose|j: int| 0 <= j < p + 1 && #[trigger] pair_contains(d0, j, a[k as int] as int);
                if j < p {
                    assert(in_first_pairs(d0, p as int, a[k as int] as int));
                } else {
                    assert(lo <= a[k as int] < v);
                }
            }
        }
        p = p + 1;
    }
    proof {
        assert forall|a: Seq<i64>|
            #[trigger] completion(*m, pre, a) && feasible(*m, a) implies beats(
            *m,
            *best,
            *best_obj,
            optimize,
            a,
        ) by {
            assert(domain_contains(m.variables@[k as int].domain@, a[k as int] as int));
            let j = choose|j: int|
                0 <= j < d0.len() / 2 && #[trigger] pair_contains(d0, j, a[k as int] as int);
            assert(in_first_pairs(d0, p as int, a[k as int] as int));
        }
    }
}

/// The solutions a solve looks for: any solution when told to stop at the
/// first, an optimal one otherwise.
pub open spec fn wanted(m: CpModelProto, stop_after_first_solution: bool, a: Seq<i64>) -> bool {
    if stop_after_first_solution {
        feasible(m, a)
    } else {
        optimal(m, a)
    }
}

/// `a` is the first wanted solution in lexicographic order of the values.
pub open spec fn first_wanted(m: CpModelProto, stop_after_first_solution: bool, a: Seq<i64>) -> bool {
    &&& wanted(m, stop_after_first_solution, a)
    &&& forall|b: Seq<i64>| #[trigger]
        wanted(m, stop_after_first_solution, b) ==> !lex_less(b, a)
}

/// `r` answers a solve of `m`: the status says whether the model is well
/// formed and whether it has a solution; a found solution is reported with its
/// objective value, and it is optimal unless the solve was told to stop at the
/// first solution of a model that has an objective.
pub open spec fn answers(m: CpModelProto, stop_after_first_solution: bool, r: CpSolverResponse) -> bool {
    &&& (r.status == CpSolverStatus::ModelInvalid) == !model_ok(m)
    &&& (r.status == CpSolverStatus::Infeasible) == (model_ok(m) && !exists|a: Seq<i64>|
        #[trigger] feasible(m, a))
    &&& (r.status == CpSolverStatus::Feasible) == (model_ok(m) && (exists|a: Seq<i64>|
        #[trigger] feasible(m, a)) && m.objective is Some && stop_after_first_solution)
    &&& (r.status == CpSolverStatus::Optimal) == (model_ok(m) && (exists|a: Seq<i64>|
        #[trigger] feasible(m, a)) && !(m.objective is Some && stop_after_first_solution))
    &&& r.status == CpSolverStatus::Optimal ==> optimal(m, r.solution@)
    &&& r.status == CpSolverStatus::Optimal || r.status == CpSolverStatus::Feasible ==> {
        &&& feasible(m, r.solution@)
        &&& first_wanted(m, stop_after_first_solution, r.solution@)
        &&& r.objective_value == reported_objective(m, r.solution@)
    }
    &&& !(r.status == CpSolverStatus::Optimal || r.status == CpSolverStatus::Feasible) ==> {
        &&& r.solution@.len() == 0
        &&& r.objective_value == 0
    }
}

/// Solve a model: find a solution, the best one unless told to stop at the
/// first, or find that there is none, or that the model is not well formed.
///
/// Of several solutions that would do, the one returned is the first in
/// lexicographic order of the variables' values, so the response is fully
/// determined by the model and the parameters.
pub fn solve_with_parameters(model: &CpModelProto, params: &SatParameters) -> (r: CpSolverResponse)
    ensures
        answers(*model, params.stop_after_first_solution, r),
{
    if !check_model(model) {
        return CpSolverResponse {
            status: CpSolverStatus::ModelInvalid,
            solution: Vec::new(),
            objective_value: 0,
        };
    }
    let optimize = model.objective.is_some() && !params.stop_after_first_solution;
    let mut prefix: Vec<i64> = Vec::new();
    let mut best: Option<Vec<i64>> = None;
    let mut best_obj: i64 = 0;
    search(model, &mut prefix, &mut best, &mut best_obj, optimize);
    proof {
        let empty = Seq::<i64>::empty();
        assert(prefix_ok(*model, empty));
        assert forall|a: Seq<i64>| #[trigger] feasible(*model, a) implies completion(
            *model,
            empty,
            a,
        ) by {}
    }
    match best {
        None => CpSolverResponse {
            status: CpSolverStatus::Infeasible,
            solution: Vec::new(),
            objective_value: 0,
        },
        Some(s) => {
            let value = eval_reported_objective(model, &s);
            let status = if model.objective.is_some() && params.stop_after_first_solution {
                CpSolverStatus::Feasible
            } else {
                CpSolverStatus::Optimal
            };
            proof {
                let stop = params.stop_after_first_solution;
                if !stop {
                    assert forall|other: Seq<i64>| #[trigger]
                        feasible(*model, other) implies objective_terms(*model, s@)
                        <= objective_terms(*model, other) by {
                        assert(completion(*model, Seq::<i64>::empty(), other));
                    }
                }
                assert forall|b: Seq<i64>| #[trigger] wanted(*model, stop, b) implies !lex_less(
                    b,
                    s@,
                ) by {
                    assert(completion(*model, Seq::<i64>::empty(), b));
                    assert(beats(*model, Some(s), best_obj, optimize, b));
                    if !stop {
                        assert(feasible(*model, s@));
                        assert(objective_terms(*model, b) <= objective_terms(*model, s@));
                    }
                }
            }
            CpSolverResponse { status, solution: s, objective_value: value }
        },
    }
}

/// Solve a model with default parameters.
pub fn solve(model: &CpModelProto) -> (r: CpSolverResponse)
    ensures
        answers(*model, false, r),
{
    let params = SatParameters { stop_after_first_solution: false };
    solve_with_parameters(model, &params)
}

} // verus!
