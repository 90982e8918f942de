use cpsat::proto;
use cpsat::proto::constraint_proto::Constraint as Kind;
use cpsat::{solve, solve_with_parameters, validate, CpModelBuilder, LinearExpr, Status};

fn linear_of(m: &CpModelBuilder, i: usize) -> proto::LinearConstraintProto {
    match &m.proto().constraints[i].constraint {
        Some(Kind::Linear(l)) => l.clone(),
        other => panic!("expected a linear constraint, found {other:?}"),
    }
}

#[test]
fn int_var_takes_the_range_bounds_as_domain() {
    let mut m = CpModelBuilder::default();
    let x = m.new_int_var(3..=7);
    let y = m.new_int_var(-4..=-1);
    assert_eq!(m.proto().variables[0].domain, vec![3, 7]);
    assert_eq!(m.proto().variables[1].domain, vec![-4, -1]);
    assert!(m.proto().variables[0].name.is_empty());
    let r = m.solve();
    assert_eq!(r.status(), Status::Optimal);
    assert!((3..=7).contains(&x.value(&r)));
    assert!((-4..=-1).contains(&y.value(&r)));
}

#[test]
fn bool_var_has_domain_zero_one() {
    let mut m = CpModelBuilder::default();
    let _ = m.new_bool_var();
    assert_eq!(m.proto().variables[0].domain, vec![0, 1]);
}

#[test]
fn ranges_are_flattened_and_gaps_are_respected() {
    let mut m = CpModelBuilder::default();
    let x = m.new_int_var_from_ranges(vec![0..=1, 5..=6]);
    assert_eq!(m.proto().variables[0].domain, vec![0, 1, 5, 6]);
    m.add_ge(x, 2);
    m.minimize(x);
    let r = m.solve();
    assert_eq!(r.status(), Status::Optimal);
    assert_eq!(x.value(&r), 5);
}

#[test]
fn double_negation_is_identity() {
    let mut m = CpModelBuilder::default();
    let a = m.new_bool_var();
    assert_eq!(!!a, a);
    assert_ne!(!a, a);
}

#[test]
fn negated_literal_reads_back_as_the_opposite() {
    let mut m = CpModelBuilder::default();
    let a = m.new_bool_var();
    m.add_eq(a, 1);
    let r = m.solve();
    assert!(a.value(&r));
    assert!(!(!a).value(&r));
}

#[test]
fn negated_bool_becomes_one_minus_the_variable() {
    let mut m = CpModelBuilder::default();
    let _x = m.new_int_var(0..=3);
    let a = m.new_bool_var();
    m.add_eq(!a, 0);
    let l = linear_of(&m, 0);
    // !a - 0 == 1 - a, stored as -a in [-1, -1]
    assert_eq!(l.vars, vec![1]);
    assert_eq!(l.coeffs, vec![-1]);
    assert_eq!(l.domain, vec![-1, -1]);
}

#[test]
fn expression_arithmetic_collects_terms() {
    let mut m = CpModelBuilder::default();
    let x = m.new_int_var(0..=10);
    let y = m.new_int_var(0..=10);
    let e = x * 2 + y - 3;
    let p: proto::LinearExpressionProto = e.into();
    assert_eq!(p.vars, vec![0, 1]);
    assert_eq!(p.coeffs, vec![2, 1]);
    assert_eq!(p.offset, -3);

    let n: proto::LinearExpressionProto = (-(x - y * 3 + 4)).into();
    assert_eq!(n.vars, vec![0, 1]);
    assert_eq!(n.coeffs, vec![-1, 3]);
    assert_eq!(n.offset, -4);

    let z: proto::LinearExpressionProto = LinearExpr::zero().into();
    assert!(z.vars.is_empty() && z.coeffs.is_empty() && z.offset == 0);
}

#[test]
fn sum_and_weighted_sum() {
    let mut m = CpModelBuilder::default();
    let x = m.new_int_var(0..=10);
    let y = m.new_int_var(0..=10);
    let s: proto::LinearExpressionProto = LinearExpr::sum(vec![x, y]).into();
    assert_eq!(s.vars, vec![0, 1]);
    assert_eq!(s.coeffs, vec![1, 1]);
    let w: proto::LinearExpressionProto = LinearExpr::weighted_sum([(x, 3), (y, -2)]).into();
    assert_eq!(w.vars, vec![0, 1]);
    assert_eq!(w.coeffs, vec![3, -2]);
    assert_eq!(w.offset, 0);
    let c: proto::LinearExpressionProto = LinearExpr::sum([1i64, 2, 3]).into();
    assert_eq!(c.offset, 6);
}

#[test]
fn linear_constraint_moves_the_constant_into_the_bounds() {
    let mut m = CpModelBuilder::default();
    let x = m.new_int_var(0..=10);
    m.add_linear_constraint(x + 5, 0..=10);
    assert_eq!(linear_of(&m, 0).domain, vec![-5, 5]);
    m.add_le(x + 5, 2);
    assert_eq!(linear_of(&m, 1).domain, vec![i64::MIN, -3]);
    m.add_ge(x, 10);
    assert_eq!(linear_of(&m, 2).domain, vec![10, i64::MAX]);
    // i64::MAX - 2 + 5 is beyond i64: no value of the terms can reach it.
    m.add_linear_constraint(x - 5, (i64::MAX - 2)..=i64::MAX);
    assert_eq!(linear_of(&m, 3).domain, Vec::<i64>::new());
}

#[test]
fn linear_constraint_beyond_i64_is_unsatisfiable() {
    let mut m = CpModelBuilder::default();
    let x = m.new_int_var(0..=i64::MAX);
    m.add_linear_constraint(x - 1, i64::MAX..=i64::MAX);
    assert_eq!(linear_of(&m, 0).domain, Vec::<i64>::new());
    assert!(m.validate().is_ok());

    let mut m = CpModelBuilder::default();
    let v = m.new_int_var(0..=3);
    m.add_linear_constraint(v - 1, i64::MAX..=i64::MAX);
    assert_eq!(m.solve().status(), Status::Infeasible);

    let mut m = CpModelBuilder::default();
    let y = m.new_int_var(i64::MIN..=0);
    m.add_linear_constraint(y + 1, i64::MIN..=i64::MIN);
    assert_eq!(linear_of(&m, 0).domain, Vec::<i64>::new());

    let mut m = CpModelBuilder::default();
    let w = m.new_int_var(0..=3);
    m.add_linear_constraint(w + 2, i64::MAX..=i64::MAX);
    assert_eq!(linear_of(&m, 0).domain, vec![i64::MAX - 2, i64::MAX - 2]);
    assert_eq!(m.solve().status(), Status::Infeasible);

    let mut m = CpModelBuilder::default();
    let z = m.new_int_var(0..=3);
    m.add_linear_constraint(z - 1, i64::MIN..=1);
    assert_eq!(linear_of(&m, 0).domain, vec![i64::MIN + 1, 2]);
    m.maximize(z);
    let r = m.solve();
    assert_eq!(r.status(), Status::Optimal);
    assert_eq!(z.value(&r), 2);
}

#[test]
fn le_ge_eq_mean_what_they_say() {
    let mut m = CpModelBuilder::default();
    let x = m.new_int_var(0..=20);
    let y = m.new_int_var(0..=20);
    m.add_le(x + 3, y);
    m.add_ge(y, 7);
    m.add_eq(x + y, 15);
    m.maximize(x);
    let r = m.solve();
    assert_eq!(r.status(), Status::Optimal);
    assert_eq!(x.value(&r), 6);
    assert_eq!(y.value(&r), 9);
    assert_eq!(r.objective_value, 6);
}

#[test]
fn maximize_negates_and_scales_back() {
    let mut m = CpModelBuilder::default();
    let x = m.new_int_var(0..=4);
    m.maximize(x * 3 + 1);
    let o = m.proto().objective.clone().unwrap();
    assert_eq!(o.coeffs, vec![-3]);
    assert_eq!(o.offset, -1);
    assert_eq!(o.scaling_factor, -1);
    let r = m.solve();
    assert_eq!(x.value(&r), 4);
    assert_eq!(r.objective_value, 13);
}

#[test]
fn maximize_accepts_the_smallest_constant() {
    let mut m = CpModelBuilder::default();
    let x = m.new_int_var(0..=4);
    m.maximize(LinearExpr::from(x) + i64::MIN);
    let o = m.proto().objective.clone().unwrap();
    assert_eq!(o.coeffs, vec![-1]);
    assert_eq!(o.offset, -(i64::MIN as i128));
    assert_eq!(o.scaling_factor, -1);
    let r = m.solve();
    assert_eq!(r.status(), Status::Optimal);
    assert_eq!(x.value(&r), 4);
    assert_eq!(r.objective_value, i64::MIN + 4);
}

#[test]
fn minimize_reports_the_objective_value() {
    let mut m = CpModelBuilder::default();
    let x = m.new_int_var(2..=9);
    m.minimize(x * 2 + 10);
    let o = m.proto().objective.clone().unwrap();
    assert_eq!(o.coeffs, vec![2]);
    assert_eq!(o.offset, 10);
    assert_eq!(o.scaling_factor, 0);
    let r = m.solve();
    assert_eq!(x.value(&r), 2);
    assert_eq!(r.objective_value, 14);
}

#[test]
fn interval_handles_index_constraints() {
    let mut m = CpModelBuilder::default();
    let s = m.new_int_var(0..=5);
    let e = m.new_int_var(0..=5);
    let c = m.add_le(s, e);
    let iv = m.new_interval_var(s, 2, e);
    m.add_no_overlap([iv]);
    assert!(matches!(
        m.proto().constraints[1].constraint,
        Some(Kind::Interval(_))
    ));
    match &m.proto().constraints[2].constraint {
        Some(Kind::NoOverlap(n)) => assert_eq!(n.intervals, vec![1]),
        other => panic!("expected no_overlap, found {other:?}"),
    }
    let _ = c;
    let r = m.solve();
    assert_eq!(r.status(), Status::Optimal);
    assert_eq!(e.value(&r) - s.value(&r), 2);
}

#[test]
fn optional_interval_carries_its_presence_literal() {
    let mut m = CpModelBuilder::default();
    let p = m.new_bool_var();
    let s = m.new_int_var(0..=5);
    let e = m.new_int_var(0..=5);
    let _ = m.new_optional_interval_var(s, 1, e, !p);
    assert_eq!(m.proto().constraints[0].enforcement_literal, vec![-1]);
}

#[test]
fn no_overlap_accepts_a_vec() {
    let mut m = CpModelBuilder::default();
    let mut ivs = Vec::new();
    let mut starts = Vec::new();
    for _ in 0..3 {
        let s = m.new_int_var(0..=4);
        let e = m.new_int_var(0..=6);
        ivs.push(m.new_interval_var(s, 2, e));
        starts.push(s);
    }
    m.add_no_overlap(ivs);
    let r = m.solve();
    assert_eq!(r.status(), Status::Optimal);
    let mut v: Vec<i64> = starts.iter().map(|s| s.value(&r)).collect();
    v.sort();
    assert!(v[0] + 2 <= v[1] && v[1] + 2 <= v[2]);
}

#[test]
fn cumulative_fits_two_at_a_time() {
    let mut m = CpModelBuilder::default();
    let mut ivs = Vec::new();
    let mut starts = Vec::new();
    for _ in 0..3 {
        let s = m.new_int_var(0..=3);
        let e = m.new_int_var(0..=6);
        ivs.push(m.new_interval_var(s, 3, e));
        starts.push(s);
    }
    m.add_cumulative(ivs, vec![1i64.into(), 1i64.into(), 1i64.into()], 2);
    let r = m.solve();
    assert_eq!(r.status(), Status::Optimal);
    for t in 0..6 {
        let load = starts
            .iter()
            .filter(|s| s.value(&r) <= t && t < s.value(&r) + 3)
            .count();
        assert!(load <= 2, "load {load} at {t}");
    }
}

#[test]
fn all_different_forces_distinct_values() {
    let mut m = CpModelBuilder::default();
    let xs: Vec<_> = (0..3).map(|_| m.new_int_var(1..=3)).collect();
    m.add_all_different(xs.iter().map(|&x| LinearExpr::from(x)).collect::<Vec<_>>());
    m.minimize(xs[0] * 100 + xs[1] * 10 + xs[2]);
    let r = m.solve();
    assert_eq!(r.status(), Status::Optimal);
    assert_eq!(
        (xs[0].value(&r), xs[1].value(&r), xs[2].value(&r)),
        (1, 2, 3)
    );
}

#[test]
fn enforcement_literals_make_constraints_conditional() {
    let mut m = CpModelBuilder::default();
    let b = m.new_bool_var();
    let x = m.new_int_var(0..=10);
    let c = m.add_ge(x, 8);
    let c2 = m.only_enforce_if(c, [b]);
    assert_eq!(c2, c);
    assert_eq!(m.proto().constraints[0].enforcement_literal, vec![0]);
    m.add_eq(b, 0);
    m.minimize(x);
    let r = m.solve();
    assert_eq!(x.value(&r), 0);
    assert!(!b.value(&r));
}

#[test]
fn constraint_names_are_set() {
    let mut m = CpModelBuilder::default();
    let x = m.new_int_var(0..=1);
    let c = m.add_le(x, 1);
    m.set_constraint_name(c, "cap");
    assert_eq!(m.proto().constraints[0].name, "cap");
}

#[test]
fn bool_or_and_bool_and_through_the_proto() {
    let mut m = CpModelBuilder::default();
    let a = m.new_bool_var();
    let b = m.new_bool_var();
    m.proto_mut().constraints.push(proto::ConstraintProto {
        constraint: Some(Kind::BoolOr(proto::BoolArgumentProto {
            literals: vec![0, 1],
        })),
        ..Default::default()
    });
    m.proto_mut().constraints.push(proto::ConstraintProto {
        constraint: Some(Kind::BoolAnd(proto::BoolArgumentProto { literals: vec![-1] })),
        ..Default::default()
    });
    let r = m.solve();
    assert_eq!(r.status(), Status::Optimal);
    assert!(!a.value(&r));
    assert!(b.value(&r));
}

#[test]
fn stop_after_first_solution_reports_feasible() {
    let mut m = CpModelBuilder::default();
    let x = m.new_int_var(0..=5);
    m.maximize(x);
    let params = proto::SatParameters {
        stop_after_first_solution: true,
    };
    let r = m.solve_with_parameters(&params);
    assert_eq!(r.status(), Status::Feasible);
    assert_eq!(x.value(&r), 0);
    let r = m.solve_with_parameters(&proto::SatParameters::default());
    assert_eq!(r.status(), Status::Optimal);
    assert_eq!(x.value(&r), 5);
}

#[test]
fn invalid_models_are_reported() {
    let mut m = CpModelBuilder::default();
    let x = m.new_int_var(0..=3);
    assert!(m.validate().is_ok());
    m.proto_mut().constraints.push(proto::ConstraintProto {
        constraint: Some(Kind::Linear(proto::LinearConstraintProto {
            vars: vec![7],
            coeffs: vec![1],
            domain: vec![0, 1],
        })),
        ..Default::default()
    });
    assert_eq!(
        m.validate(),
        Err(String::from(
            "a constraint refers to an unknown variable, literal or interval, or may overflow i64"
        ))
    );
    let r = m.solve();
    assert_eq!(r.status(), Status::ModelInvalid);
    assert!(r.solution.is_empty());
    let _ = x;
}

#[test]
fn validation_names_the_part_that_is_malformed() {
    let mut m = CpModelBuilder::default();
    m.new_int_var(3..=1);
    assert_eq!(
        m.validate(),
        Err(String::from("a variable has an empty or malformed domain"))
    );
    let mut m = CpModelBuilder::default();
    let x = m.new_int_var(0..=3);
    m.minimize(x);
    m.proto_mut().objective.as_mut().unwrap().vars = vec![5];
    assert_eq!(
        m.validate(),
        Err(String::from(
            "the objective refers to an unknown variable or may overflow i64"
        ))
    );
}

#[test]
fn interval_references_must_name_intervals() {
    let mut m = CpModelBuilder::default();
    let x = m.new_int_var(0..=3);
    let c = m.add_le(x, 2);
    m.proto_mut().constraints.push(proto::ConstraintProto {
        constraint: Some(Kind::NoOverlap(proto::NoOverlapConstraintProto {
            intervals: vec![0],
        })),
        ..Default::default()
    });
    let _ = c;
    assert!(m.validate().is_err());
}

#[test]
fn overflowing_objective_is_rejected() {
    let mut m = CpModelBuilder::default();
    let x = m.new_int_var(0..=i64::MAX);
    m.minimize(x * 2);
    assert_eq!(
        m.validate(),
        Err(String::from(
            "the objective refers to an unknown variable or may overflow i64"
        ))
    );
    assert_eq!(m.solve().status(), Status::ModelInvalid);
}

#[test]
fn negative_demand_is_rejected() {
    let mut m = CpModelBuilder::default();
    let s = m.new_int_var(0..=3);
    let e = m.new_int_var(0..=6);
    let iv = m.new_interval_var(s, 3, e);
    m.add_cumulative([iv], vec![(-1i64).into()], 2);
    assert!(m.validate().is_err());
}

#[test]
fn free_functions_agree_with_the_builder() {
    let mut m = CpModelBuilder::default();
    let x = m.new_int_var(0..=2);
    m.add_ge(x, 3);
    assert_eq!(solve(m.proto()).status(), Status::Infeasible);
    assert!(solve(m.proto()).solution.is_empty());
    assert!(validate(m.proto()).is_ok());
    let p = proto::SatParameters::default();
    assert_eq!(
        solve_with_parameters(m.proto(), &p).status(),
        Status::Infeasible
    );
}

#[test]
fn empty_model_is_optimal() {
    let m = CpModelBuilder::default();
    let r = m.solve();
    assert_eq!(r.status(), Status::Optimal);
    assert!(r.solution.is_empty());
}

fn push_kind(m: &mut CpModelBuilder, k: Kind) {
    m.proto_mut().constraints.push(proto::ConstraintProto {
        constraint: Some(k),
        ..Default::default()
    });
}

#[test]
fn at_most_one_exactly_one_and_xor() {
    let mut m = CpModelBuilder::default();
    let bs: Vec<_> = (0..3).map(|_| m.new_bool_var()).collect();
    push_kind(
        &mut m,
        Kind::ExactlyOne(proto::BoolArgumentProto { literals: vec![0, 1, 2] }),
    );
    push_kind(
        &mut m,
        Kind::AtMostOne(proto::BoolArgumentProto { literals: vec![0, 1] }),
    );
    push_kind(
        &mut m,
        Kind::BoolXor(proto::BoolArgumentProto { literals: vec![1, 2] }),
    );
    m.maximize(bs[0] * 4 + bs[1] * 2 + bs[2]);
    let r = m.solve();
    assert_eq!(r.status(), Status::Optimal);
    // exactly one true, and xor(b1, b2) forces it to be b1 or b2: b1 weighs more
    assert_eq!(
        (bs[0].value(&r), bs[1].value(&r), bs[2].value(&r)),
        (false, true, false)
    );
}

#[test]
fn lin_max_takes_the_largest() {
    let mut m = CpModelBuilder::default();
    let x = m.new_int_var(0..=5);
    let y = m.new_int_var(0..=5);
    let t = m.new_int_var(0..=10);
    m.add_eq(x, 2);
    m.add_eq(y, 4);
    let e = |v: i32| proto::LinearExpressionProto {
        vars: vec![v],
        coeffs: vec![1],
        offset: 0,
    };
    push_kind(
        &mut m,
        Kind::LinMax(proto::LinearArgumentProto {
            target: Some(e(2)),
            exprs: vec![e(0), e(1)],
        }),
    );
    let r = m.solve();
    assert_eq!(r.status(), Status::Optimal);
    assert_eq!(t.value(&r), 4);
}

#[test]
fn double_negation_gives_back_the_variable() {
    let mut m = CpModelBuilder::default();
    let b = m.new_bool_var();
    let c = m.new_bool_var();
    assert_eq!(!!b, b);
    assert_eq!(!!c, c);
    assert_ne!(!b, b);
    assert_ne!(!b, !c);
}

#[test]
fn ties_go_to_the_lexicographically_first_solution() {
    let mut m = CpModelBuilder::default();
    let x = m.new_int_var(0..=1);
    let y = m.new_int_var(0..=1);
    m.add_le(x + y, 1);
    m.maximize(x + y);
    let r = m.solve();
    assert_eq!(r.status(), Status::Optimal);
    assert_eq!(r.solution, vec![0, 1]);
    assert_eq!(r.objective_value, 1);
    let free = solve(m.proto());
    assert_eq!(free.solution, r.solution);
    assert_eq!(free.objective_value, r.objective_value);

    let params = proto::SatParameters {
        stop_after_first_solution: true,
    };
    let first = m.solve_with_parameters(&params);
    assert_eq!(first.status(), Status::Feasible);
    assert_eq!(first.solution, vec![0, 0]);
    assert_eq!(first.objective_value, 0);
    assert_eq!(solve_with_parameters(m.proto(), &params).solution, vec![0, 0]);
}

#[test]
fn le_and_ge_move_the_constant_into_both_bounds() {
    let mut m = CpModelBuilder::default();
    let x = m.new_int_var(0..=10);
    let y = m.new_int_var(0..=10);
    let c = m.add_le(x + y, 12);
    let l = linear_of(&m, 0);
    assert_eq!(l.vars, vec![0, 1]);
    assert_eq!(l.coeffs, vec![1, 1]);
    assert_eq!(l.domain, vec![i64::MIN + 12, 12]);
    m.add_ge(x + 5, 0);
    assert_eq!(linear_of(&m, 1).domain, vec![-5, i64::MAX - 5]);
    m.add_eq(x - y, 3);
    assert_eq!(linear_of(&m, 2).domain, vec![3, 3]);
    let z = m.new_int_var(i64::MIN..=0);
    m.add_le(z - 5, 0);
    assert_eq!(linear_of(&m, 3).domain, vec![i64::MIN + 5, 5]);
    let _ = c;
}
