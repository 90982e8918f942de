//! Building a `CpModelProto` without writing it out by hand.
//!
//! # Why intervals are their own type
//!
//! A model has two index spaces. Integer and boolean variables index into
//! `CpModelProto::variables`; an *interval* is not a variable at all but a
//! constraint, and `no_overlap` / `cumulative` refer to it by its index into
//! `CpModelProto::constraints`. Conflating the two silently produces models
//! that validate and then solve the wrong problem, so [`IntervalVar`] is a
//! distinct handle that cannot be used where an [`IntVar`] is expected.

use vstd::prelude::*;

use core::ops::RangeInclusive;

use crate::expr::{IntoLinearExpr, LinearExpr, LinearExprView};
use crate::items::IntoItems;
use crate::proto::constraint_proto::Constraint as ConstraintKind;
use crate::proto::{
    AllDifferentConstraintProto, ConstraintProto, CpModelProto, CpObjectiveProto,
    CpSolverResponse, CumulativeConstraintProto, IntegerVariableProto, IntervalConstraintProto,
    LinearConstraintProto, LinearExpressionProto, NoOverlapConstraintProto, SatParameters,
};
use crate::semantics::literal_value;
use crate::solver::answers;
use crate::validity::{literal_var, model_ok, validation_result};
use vstd::string::StringExecFns;

verus! {

/// A model under construction.
#[derive(Clone, Debug)]
pub struct CpModelBuilder {
    proto: CpModelProto,
}

/// A boolean variable, or its negation. Negate it with `!`.
#[derive(Copy, Clone, PartialEq, Eq, Structural, Hash, Debug)]
pub struct BoolVar(i32);

/// An integer variable over a finite domain.
#[derive(Copy, Clone, PartialEq, Eq, Structural, Hash, Debug)]
pub struct IntVar(i32);

/// A start/size/end triple that scheduling constraints operate on.
///
/// Obtained from [`CpModelBuilder::new_interval_var`]. Not an [`IntVar`]: see
/// the module docs for why.
#[derive(Copy, Clone, PartialEq, Eq, Structural, Hash, Debug)]
pub struct IntervalVar(i32);

/// Handle to a posted constraint, for attaching a name or an enforcement literal.
#[derive(Copy, Clone, PartialEq, Eq, Structural, Hash, Debug)]
pub struct Constraint(usize);

impl BoolVar {
    /// The literal: `r >= 0` for variable `r`, `-r - 1` for its negation.
    pub closed spec fn literal(self) -> i32 {
        self.0
    }

    /// A boolean variable is nothing but its literal.
    pub proof fn lemma_literal_determines(a: BoolVar, b: BoolVar)
        requires
            a.literal() == b.literal(),
        ensures
            a == b,
    {
    }
}

impl IntVar {
    /// The index of the variable in the model.
    pub closed spec fn index(self) -> i32 {
        self.0
    }

    /// An integer variable is nothing but its index.
    pub proof fn lemma_index_determines(a: IntVar, b: IntVar)
        requires
            a.index() == b.index(),
        ensures
            a == b,
    {
    }
}

impl IntervalVar {
    /// The index, among the model's constraints, of the interval constraint.
    pub closed spec fn index(self) -> i32 {
        self.0
    }

    /// An interval variable is nothing but its index.
    pub proof fn lemma_index_determines(a: IntervalVar, b: IntervalVar)
        requires
            a.index() == b.index(),
        ensures
            a == b,
    {
    }
}

impl Constraint {
    /// The index of the constraint in the model.
    pub closed spec fn index(self) -> usize {
        self.0
    }

    /// A constraint handle is nothing but its index.
    pub proof fn lemma_index_determines(a: Constraint, b: Constraint)
        requires
            a.index() == b.index(),
        ensures
            a == b,
    {
    }
}

impl View for CpModelBuilder {
    type V = CpModelProto;

    closed spec fn view(&self) -> CpModelProto {
        self.proto
    }
}

// ---------------------------------------------------------------------------
// What each step does to the model
// ---------------------------------------------------------------------------

/// An expression of the model holds exactly the terms and constant of `e`.
pub open spec fn expr_is(p: LinearExpressionProto, e: LinearExprView) -> bool {
    &&& p.vars@ == e.vars
    &&& p.coeffs@ == e.coeffs
    &&& p.offset == e.offset
}

/// An optional expression of the model is present and holds the terms and constant of `e`.
pub open spec fn opt_expr_is(p: Option<LinearExpressionProto>, e: LinearExprView) -> bool {
    match p {
        Some(p) => expr_is(p, e),
        None => false,
    }
}

/// The model's expressions at `ps` hold the terms and constants of `es`, in order.
pub open spec fn exprs_are(ps: Seq<LinearExpressionProto>, es: Seq<LinearExprView>) -> bool {
    &&& ps.len() == es.len()
    &&& forall|i: int| 0 <= i < ps.len() ==> #[trigger] expr_is(ps[i], es[i])
}

/// `new` is `old` with one more variable, unnamed, over `domain`.
pub open spec fn adds_variable(old: CpModelProto, new: CpModelProto, domain: Seq<i64>) -> bool {
    &&& new.name == old.name
    &&& new.constraints == old.constraints
    &&& new.objective == old.objective
    &&& new.variables@.len() == old.variables@.len() + 1
    &&& forall|i: int| 0 <= i < old.variables@.len() ==> new.variables@[i] == old.variables@[i]
    &&& new.variables@.last().domain@ == domain
    &&& new.variables@.last().name@.len() == 0
}

/// `new` is `old` with one more constraint, unnamed, enforced by `enforcement`.
pub open spec fn adds_constraint(old: CpModelProto, new: CpModelProto, enforcement: Seq<i32>) -> bool {
    &&& new.name == old.name
    &&& new.variables == old.variables
    &&& new.objective == old.objective
    &&& new.constraints@.len() == old.constraints@.len() + 1
    &&& forall|i: int|
        0 <= i < old.constraints@.len() ==> new.constraints@[i] == old.constraints@[i]
    &&& new.constraints@.last().name@.len() == 0
    &&& new.constraints@.last().enforcement_literal@ == enforcement
}

/// The kind of the model's last constraint.
pub open spec fn last_kind(m: CpModelProto) -> Option<ConstraintKind> {
    m.constraints@.last().constraint
}

/// `new` differs from `old` in the constraint at `i` alone, and only in the
/// parts other than its kind.
pub open spec fn same_but_constraint(old: CpModelProto, new: CpModelProto, i: int) -> bool {
    &&& new.name == old.name
    &&& new.variables == old.variables
    &&& new.objective == old.objective
    &&& new.constraints@.len() == old.constraints@.len()
    &&& forall|j: int|
        0 <= j < old.constraints@.len() && j != i ==> new.constraints@[j] == old.constraints@[j]
    &&& new.constraints@[i].constraint == old.constraints@[i].constraint
}

/// The model's objective holds exactly these terms, constant and scaling
/// factor.
pub open spec fn objective_is(
    m: CpModelProto,
    vars: Seq<i32>,
    coeffs: Seq<i64>,
    offset: int,
    scaling_factor: i64,
) -> bool {
    m.objective matches Some(o) && o.vars@ == vars && o.coeffs@ == coeffs && o.offset == offset
        && o.scaling_factor == scaling_factor
}

/// `new` is `old` with its objective replaced by these terms, constant and
/// scaling factor.
pub open spec fn sets_objective(
    old: CpModelProto,
    new: CpModelProto,
    vars: Seq<i32>,
    coeffs: Seq<i64>,
    offset: int,
    scaling_factor: i64,
) -> bool {
    &&& new.name == old.name
    &&& new.variables == old.variables
    &&& new.constraints == old.constraints
    &&& objective_is(new, vars, coeffs, offset, scaling_factor)
}

/// `x` clamped to the range of `i64`.
pub open spec fn clamp(x: int) -> i64 {
    if x < i64::MIN {
        i64::MIN
    } else if x > i64::MAX {
        i64::MAX
    } else {
        x as i64
    }
}

/// The flat domain for terms required to lie in `[lo, hi]`: that range cut to
/// `i64`, or no value at all when the range lies wholly outside `i64`.
pub open spec fn terms_domain(lo: int, hi: int) -> Seq<i64> {
    if lo > i64::MAX || hi < i64::MIN {
        Seq::empty()
    } else {
        seq![clamp(lo), clamp(hi)]
    }
}

/// The flat domain `[r0.start, r0.end, r1.start, r1.end, ...]`.
pub open spec fn flat_ranges(rs: Seq<RangeInclusive<i64>>) -> Seq<i64>
    decreases rs.len(),
{
    if rs.len() == 0 {
        Seq::empty()
    } else {
        flat_ranges(rs.drop_last()) + seq![rs.last()@.start, rs.last()@.end]
    }
}

/// The literals of a list of boolean variables.
pub open spec fn literals_of(bs: Seq<BoolVar>) -> Seq<i32> {
    bs.map_values(|b: BoolVar| b.literal())
}

/// The constraint indices of a list of intervals.
pub open spec fn interval_indices(ivs: Seq<IntervalVar>) -> Seq<i32> {
    ivs.map_values(|iv: IntervalVar| iv.index())
}

/// The views of a list of expressions.
pub open spec fn views_of(es: Seq<LinearExpr>) -> Seq<LinearExprView> {
    es.map_values(|e: LinearExpr| e@)
}

// ---------------------------------------------------------------------------
// Small helpers
// ---------------------------------------------------------------------------

/// `RangeInclusive::start`: the std documentation states that it returns the
/// lower bound of the range. Trusted, not proved.
#[verifier::external_body]
fn range_start(r: &RangeInclusive<i64>) -> (s: i64)
    ensures
        s == r@.start,
{
    *r.start()
}

/// `RangeInclusive::end`: the std documentation states that it returns the
/// upper bound of the range. Trusted, not proved.
#[verifier::external_body]
fn range_end(r: &RangeInclusive<i64>) -> (e: i64)
    ensures
        e == r@.end,
{
    *r.end()
}

/// The flat domain `terms_domain(lo, hi)`.
fn make_terms_domain(lo: i128, hi: i128) -> (d: Vec<i64>)
    ensures
        d@ == terms_domain(lo as int, hi as int),
{
    let mut d: Vec<i64> = Vec::new();
    if lo > i64::MAX as i128 || hi < i64::MIN as i128 {
        assert(d@ =~= terms_domain(lo as int, hi as int));
        return d;
    }
    let l: i64 = if lo < i64::MIN as i128 { i64::MIN } else { lo as i64 };
    let h: i64 = if hi > i64::MAX as i128 { i64::MAX } else { hi as i64 };
    d.push(l);
    d.push(h);
    assert(d@ =~= terms_domain(lo as int, hi as int));
    d
}

fn to_proto(e: LinearExpr) -> (p: LinearExpressionProto)
    ensures
        expr_is(p, e@),
{
    let (vars, coeffs, offset) = e.into_parts();
    LinearExpressionProto { vars, coeffs, offset }
}

fn to_protos(es: Vec<LinearExpr>) -> (ps: Vec<LinearExpressionProto>)
    ensures
        exprs_are(ps@, views_of(es@)),
{
    let mut es = es;
    let ghost views = views_of(es@);
    let mut rev: Vec<LinearExpressionProto> = Vec::new();
    while es.len() > 0
        invariant
            es@.len() + rev@.len() == views.len(),
            forall|i: int| 0 <= i < es@.len() ==> es@[i]@ == views[i],
            forall|i: int|
                0 <= i < rev@.len() ==> #[trigger] expr_is(rev@[i], views[views.len() - 1 - i]),
        decreases es.len(),
    {
        let e = es.pop().unwrap();
        rev.push(to_proto(e));
    }
    let mut ps: Vec<LinearExpressionProto> = Vec::new();
    while rev.len() > 0
        invariant
            ps@.len() + rev@.len() == views.len(),
            forall|i: int|
                0 <= i < rev@.len() ==> #[trigger] expr_is(rev@[i], views[views.len() - 1 - i]),
            forall|i: int| 0 <= i < ps@.len() ==> #[trigger] expr_is(ps@[i], views[i]),
        decreases rev.len(),
    {
        let p = rev.pop().unwrap();
        proof {
            assert(expr_is(p, views[views.len() - 1 - rev@.len()]));
        }
        ps.push(p);
    }
    ps
}

// ---------------------------------------------------------------------------
// Model
// ---------------------------------------------------------------------------

impl Default for CpModelBuilder {
    fn default() -> (b: Self)
        ensures
            b@.name@.len() == 0,
            b@.variables@.len() == 0,
            b@.constraints@.len() == 0,
            b@.objective is None,
    {
        CpModelBuilder { proto: CpModelProto::default() }
    }
}

impl CpModelBuilder {
    /// The model as a protobuf.
    pub fn proto(&self) -> (p: &CpModelProto)
        ensures
            *p == self@,
    {
        &self.proto
    }

    /// The model as a mutable protobuf.
    ///
    /// This is a deliberate escape hatch: anything the model type can hold but
    /// this builder has no method for is reachable here. The model type holds
    /// only part of what CP-SAT can express; see the crate's docs for which.
    pub fn proto_mut(&mut self) -> (p: &mut CpModelProto)
        ensures
            *p == old(self)@,
            final(self)@ == *final(p),
    {
        &mut self.proto
    }

    fn push_var(&mut self, domain: Vec<i64>) -> (index: i32)
        requires
            old(self)@.variables@.len() <= i32::MAX,
        ensures
            adds_variable(old(self)@, final(self)@, domain@),
            index == old(self)@.variables@.len(),
    {
        let index = self.proto.variables.len() as i32;
        self.proto.variables.push(IntegerVariableProto { name: String::new(), domain });
        index
    }

    fn push_constraint(&mut self, c: ConstraintKind, enforcement: Vec<i32>) -> (r: Constraint)
        ensures
            adds_constraint(old(self)@, final(self)@, enforcement@),
            last_kind(final(self)@) == Some(c),
            r.index() == old(self)@.constraints@.len(),
    {
        let index = self.proto.constraints.len();
        self.proto.constraints.push(
            ConstraintProto { name: String::new(), enforcement_literal: enforcement, constraint: Some(c) },
        );
        Constraint(index)
    }

    /// Add a boolean variable.
    pub fn new_bool_var(&mut self) -> (b: BoolVar)
        requires
            old(self)@.variables@.len() <= i32::MAX,
        ensures
            adds_variable(old(self)@, final(self)@, seq![0i64, 1i64]),
            b.literal() == old(self)@.variables@.len(),
    {
        let mut d = Vec::new();
        d.push(0);
        d.push(1);
        assert(d@ =~= seq![0i64, 1i64]);
        BoolVar(self.push_var(d))
    }

    /// Add an integer variable over the inclusive range `domain`.
    pub fn new_int_var(&mut self, domain: RangeInclusive<i64>) -> (x: IntVar)
        requires
            old(self)@.variables@.len() <= i32::MAX,
        ensures
            adds_variable(old(self)@, final(self)@, seq![domain@.start, domain@.end]),
            x.index() == old(self)@.variables@.len(),
    {
        let mut d = Vec::new();
        d.push(range_start(&domain));
        d.push(range_end(&domain));
        assert(d@ =~= seq![domain@.start, domain@.end]);
        IntVar(self.push_var(d))
    }

    /// Add an integer variable over a union of inclusive ranges.
    pub fn new_int_var_from_ranges(&mut self, ranges: impl IntoItems<RangeInclusive<i64>>) -> (x:
        IntVar)
        requires
            old(self)@.variables@.len() <= i32::MAX,
        ensures
            adds_variable(old(self)@, final(self)@, flat_ranges(ranges.items())),
            final(self)@.variables@.last().domain@.len() == 2 * ranges.items().len(),
            forall|i: int|
                0 <= i < ranges.items().len() ==> final(self)@.variables@.last().domain@[2 * i]
                    == (#[trigger] ranges.items()[i])@.start
                    && final(self)@.variables@.last().domain@[2 * i + 1] == ranges.items()[i]@.end,
            x.index() == old(self)@.variables@.len(),
    {
        proof {
            crate::laws::lemma_flat_ranges(ranges.items());
        }
        let rs = ranges.into_items();
        let mut d: Vec<i64> = Vec::new();
        let mut i: usize = 0;
        while i < rs.len()
            invariant
                i <= rs.len(),
                d@ == flat_ranges(rs@.subrange(0, i as int)),
            decreases rs.len() - i,
        {
            d.push(range_start(&rs[i]));
            d.push(range_end(&rs[i]));
            assert(rs@.subrange(0, i + 1).drop_last() =~= rs@.subrange(0, i as int));
            assert(d@ =~= flat_ranges(rs@.subrange(0, i + 1)));
            i = i + 1;
        }
        assert(rs@.subrange(0, rs.len() as int) =~= rs@);
        IntVar(self.push_var(d))
    }

    /// Give a posted constraint a name, for readable stats and error messages.
    pub fn set_constraint_name(&mut self, c: Constraint, name: &str)
        requires
            c.index() < old(self)@.constraints@.len(),
        ensures
            same_but_constraint(old(self)@, final(self)@, c.index() as int),
            final(self)@.constraints@[c.index() as int].name@ == name@,
            final(self)@.constraints@[c.index() as int].enforcement_literal
                == old(self)@.constraints@[c.index() as int].enforcement_literal,
    {
        self.proto.constraints[c.0].name = String::from_str(name);
    }

    /// Make a constraint conditional: it holds only when every literal does.
    pub fn only_enforce_if(&mut self, c: Constraint, literals: impl IntoItems<BoolVar>) -> (r:
        Constraint)
        requires
            c.index() < old(self)@.constraints@.len(),
        ensures
            r == c,
            same_but_constraint(old(self)@, final(self)@, c.index() as int),
            final(self)@.constraints@[c.index() as int].name
                == old(self)@.constraints@[c.index() as int].name,
            final(self)@.constraints@[c.index() as int].enforcement_literal@
                == old(self)@.constraints@[c.index() as int].enforcement_literal@ + literals_of(
                literals.items(),
            ),
            final(self)@.constraints@[c.index() as int].enforcement_literal@.len()
                == old(self)@.constraints@[c.index() as int].enforcement_literal@.len()
                + literals.items().len(),
            forall|j: int|
                0 <= j < old(self)@.constraints@[c.index() as int].enforcement_literal@.len()
                    ==> #[trigger] final(self)@.constraints@[c.index() as int].enforcement_literal@[j]
                    == old(self)@.constraints@[c.index() as int].enforcement_literal@[j],
            forall|k: int|
                0 <= k < literals.items().len()
                    ==> final(self)@.constraints@[c.index() as int].enforcement_literal@[old(
                    self,
                )@.constraints@[c.index() as int].enforcement_literal@.len() + k]
                    == (#[trigger] literals.items()[k]).literal(),
    {
        proof {
            crate::laws::lemma_literals_of(literals.items());
        }
        let bs = literals.into_items();
        let i = c.0;
        let ghost before = self.proto.constraints@[i as int].enforcement_literal@;
        let mut k: usize = 0;
        while k < bs.len()
            invariant
                i < old(self)@.constraints@.len(),
                same_but_constraint(old(self)@, self@, i as int),
                self@.constraints@[i as int].name == old(self)@.constraints@[i as int].name,
                before == old(self)@.constraints@[i as int].enforcement_literal@,
                k <= bs.len(),
                self@.constraints@[i as int].enforcement_literal@ == before + literals_of(
                    bs@.subrange(0, k as int),
                ),
            decreases bs.len() - k,
        {
            self.proto.constraints[i].enforcement_literal.push(bs[k].0);
            assert(literals_of(bs@.subrange(0, k + 1)) =~= literals_of(bs@.subrange(0, k as int)).push(
                bs@[k as int].literal(),
            ));
            k = k + 1;
        }
        assert(bs@.subrange(0, bs.len() as int) =~= bs@);
        c
    }

    // -- scheduling ---------------------------------------------------------

    /// Add an interval with `start + size == end`.
    ///
    /// All three may be arbitrary linear expressions, so a task whose duration
    /// depends on another variable needs no auxiliary encoding.
    pub fn new_interval_var(
        &mut self,
        start: impl IntoLinearExpr,
        size: impl IntoLinearExpr,
        end: impl IntoLinearExpr,
    ) -> (iv: IntervalVar)
        requires
            old(self)@.constraints@.len() <= i32::MAX,
        ensures
            adds_constraint(old(self)@, final(self)@, Seq::empty()),
            last_kind(final(self)@) matches Some(ConstraintKind::Interval(p)) && opt_expr_is(
                p.start,
                start.linear_view(),
            ) && opt_expr_is(p.size, size.linear_view()) && opt_expr_is(p.end, end.linear_view()),
            iv.index() == old(self)@.constraints@.len(),
    {
        self.push_interval(start, size, end, Vec::new())
    }

    fn push_interval(
        &mut self,
        start: impl IntoLinearExpr,
        size: impl IntoLinearExpr,
        end: impl IntoLinearExpr,
        enforcement: Vec<i32>,
    ) -> (iv: IntervalVar)
        requires
            old(self)@.constraints@.len() <= i32::MAX,
        ensures
            adds_constraint(old(self)@, final(self)@, enforcement@),
            last_kind(final(self)@) matches Some(ConstraintKind::Interval(p)) && opt_expr_is(
                p.start,
                start.linear_view(),
            ) && opt_expr_is(p.size, size.linear_view()) && opt_expr_is(p.end, end.linear_view()),
            iv.index() == old(self)@.constraints@.len(),
    {
        let s = to_proto(start.into_linear_expr());
        let z = to_proto(size.into_linear_expr());
        let e = to_proto(end.into_linear_expr());
        let c = self.push_constraint(
            ConstraintKind::Interval(IntervalConstraintProto { start: Some(s), end: Some(e), size: Some(z) }),
            enforcement,
        );
        IntervalVar(c.0 as i32)
    }

    /// Add an interval that only exists when `presence` is true.
    ///
    /// An optional interval stands for a task that may be left out entirely;
    /// absent intervals are ignored by `no_overlap` and `cumulative`.
    pub fn new_optional_interval_var(
        &mut self,
        start: impl IntoLinearExpr,
        size: impl IntoLinearExpr,
        end: impl IntoLinearExpr,
        presence: BoolVar,
    ) -> (iv: IntervalVar)
        requires
            old(self)@.constraints@.len() <= i32::MAX,
        ensures
            adds_constraint(old(self)@, final(self)@, seq![presence.literal()]),
            last_kind(final(self)@) matches Some(ConstraintKind::Interval(p)) && opt_expr_is(
                p.start,
                start.linear_view(),
            ) && opt_expr_is(p.size, size.linear_view()) && opt_expr_is(p.end, end.linear_view()),
            iv.index() == old(self)@.constraints@.len(),
    {
        let mut enforcement = Vec::new();
        enforcement.push(presence.0);
        assert(enforcement@ =~= seq![presence.literal()]);
        self.push_interval(start, size, end, enforcement)
    }

    /// Forbid any two of `intervals` from overlapping in time.
    pub fn add_no_overlap(&mut self, intervals: impl IntoItems<IntervalVar>) -> (c: Constraint)
        ensures
            adds_constraint(old(self)@, final(self)@, Seq::empty()),
            last_kind(final(self)@) matches Some(ConstraintKind::NoOverlap(n)) && n.intervals@
                == interval_indices(intervals.items()),
            c.index() == old(self)@.constraints@.len(),
    {
        let ivs = intervals.into_items();
        let ints = interval_list(&ivs);
        self.push_constraint(
            ConstraintKind::NoOverlap(NoOverlapConstraintProto { intervals: ints }),
            Vec::new(),
        )
    }

    /// Cap the total demand of overlapping intervals at `capacity`.
    ///
    /// `intervals` and `demands` correspond pairwise, so they must have the
    /// same length: a silent mismatch would solve a different model.
    pub fn add_cumulative(
        &mut self,
        intervals: impl IntoItems<IntervalVar>,
        demands: impl IntoItems<LinearExpr>,
        capacity: impl IntoLinearExpr,
    ) -> (c: Constraint)
        requires
            intervals.items().len() == demands.items().len(),
        ensures
            adds_constraint(old(self)@, final(self)@, Seq::empty()),
            last_kind(final(self)@) matches Some(ConstraintKind::Cumulative(k)) && k.intervals@
                == interval_indices(intervals.items()) && exprs_are(
                k.demands@,
                views_of(demands.items()),
            ) && opt_expr_is(k.capacity, capacity.linear_view()),
            last_kind(final(self)@) matches Some(ConstraintKind::Cumulative(k))
                && k.demands@.len() == demands.items().len() && k.intervals@.len()
                == intervals.items().len() && forall|i: int|
                0 <= i < demands.items().len() ==> expr_is(
                    #[trigger] k.demands@[i],
                    demands.items()[i]@,
                ) && k.intervals@[i] == intervals.items()[i].index(),
            c.index() == old(self)@.constraints@.len(),
    {
        proof {
            crate::laws::lemma_views_of(demands.items());
        }
        let ivs = intervals.into_items();
        let ints = interval_list(&ivs);
        let ds = to_protos(demands.into_items());
        let cap = to_proto(capacity.into_linear_expr());
        self.push_constraint(
            ConstraintKind::Cumulative(
                CumulativeConstraintProto { capacity: Some(cap), intervals: ints, demands: ds },
            ),
            Vec::new(),
        )
    }

    // -- linear -------------------------------------------------------------

    /// Constrain a linear expression to lie within an inclusive range.
    ///
    /// The stored constraint has no constant, so the expression's constant is
    /// moved into the bounds. Bounds beyond `i64` are cut to it; a range that
    /// no terms within `i64` can reach becomes the empty domain.
    pub fn add_linear_constraint(&mut self, expr: impl IntoLinearExpr, domain: RangeInclusive<
        i64,
    >) -> (c: Constraint)
        ensures
            adds_constraint(old(self)@, final(self)@, Seq::empty()),
            last_kind(final(self)@) matches Some(ConstraintKind::Linear(l)) && l.vars@
                == expr.linear_view().vars && l.coeffs@ == expr.linear_view().coeffs && l.domain@
                == terms_domain(
                domain@.start - expr.linear_view().offset,
                domain@.end - expr.linear_view().offset,
            ),
            c.index() == old(self)@.constraints@.len(),
    {
        let lo = range_start(&domain);
        let hi = range_end(&domain);
        let (vars, coeffs, offset) = expr.into_linear_expr().into_parts();
        self.post_terms(vars, coeffs, lo as i128 - offset as i128, hi as i128 - offset as i128)
    }

    /// Post `lo <= sum coeffs[i] * x[vars[i]] <= hi`.
    fn post_terms(&mut self, vars: Vec<i32>, coeffs: Vec<i64>, lo: i128, hi: i128) -> (c: Constraint)
        ensures
            adds_constraint(old(self)@, final(self)@, Seq::empty()),
            last_kind(final(self)@) matches Some(ConstraintKind::Linear(l)) && l.vars@ == vars@
                && l.coeffs@ == coeffs@ && l.domain@ == terms_domain(lo as int, hi as int),
            c.index() == old(self)@.constraints@.len(),
    {
        let domain = make_terms_domain(lo, hi);
        self.push_constraint(
            ConstraintKind::Linear(LinearConstraintProto { vars, coeffs, domain }),
            Vec::new(),
        )
    }

    /// `lhs <= rhs`, posted as `lhs - rhs` in `i64::MIN..=0`.
    pub fn add_le(&mut self, lhs: impl IntoLinearExpr, rhs: impl IntoLinearExpr) -> (c: Constraint)
        requires
            lhs.linear_view().can_sub(rhs.linear_view()),
        ensures
            adds_constraint(old(self)@, final(self)@, Seq::empty()),
            last_kind(final(self)@) matches Some(ConstraintKind::Linear(l)) && l.vars@
                == lhs.linear_view().minus(rhs.linear_view()).vars && l.coeffs@ == lhs.linear_view().minus(
                rhs.linear_view(),
            ).coeffs && l.domain@ == terms_domain(
                i64::MIN - lhs.linear_view().minus(rhs.linear_view()).offset,
                0 - lhs.linear_view().minus(rhs.linear_view()).offset,
            ),
            c.index() == old(self)@.constraints@.len(),
    {
        let (vars, coeffs, offset) = lhs.into_linear_expr().minus(rhs.into_linear_expr()).into_parts();
        self.post_terms(vars, coeffs, i64::MIN as i128 - offset as i128, 0 - offset as i128)
    }

    /// `lhs >= rhs`, posted as `lhs - rhs` in `0..=i64::MAX`.
    pub fn add_ge(&mut self, lhs: impl IntoLinearExpr, rhs: impl IntoLinearExpr) -> (c: Constraint)
        requires
            lhs.linear_view().can_sub(rhs.linear_view()),
        ensures
            adds_constraint(old(self)@, final(self)@, Seq::empty()),
            last_kind(final(self)@) matches Some(ConstraintKind::Linear(l)) && l.vars@
                == lhs.linear_view().minus(rhs.linear_view()).vars && l.coeffs@ == lhs.linear_view().minus(
                rhs.linear_view(),
            ).coeffs && l.domain@ == terms_domain(
                0 - lhs.linear_view().minus(rhs.linear_view()).offset,
                i64::MAX - lhs.linear_view().minus(rhs.linear_view()).offset,
            ),
            c.index() == old(self)@.constraints@.len(),
    {
        let (vars, coeffs, offset) = lhs.into_linear_expr().minus(rhs.into_linear_expr()).into_parts();
        self.post_terms(vars, coeffs, 0 - offset as i128, i64::MAX as i128 - offset as i128)
    }

    /// `lhs == rhs`, posted as `lhs - rhs` in `0..=0`.
    pub fn add_eq(&mut self, lhs: impl IntoLinearExpr, rhs: impl IntoLinearExpr) -> (c: Constraint)
        requires
            lhs.linear_view().can_sub(rhs.linear_view()),
        ensures
            adds_constraint(old(self)@, final(self)@, Seq::empty()),
            last_kind(final(self)@) matches Some(ConstraintKind::Linear(l)) && l.vars@
                == lhs.linear_view().minus(rhs.linear_view()).vars && l.coeffs@ == lhs.linear_view().minus(
                rhs.linear_view(),
            ).coeffs && l.domain@ == terms_domain(
                0 - lhs.linear_view().minus(rhs.linear_view()).offset,
                0 - lhs.linear_view().minus(rhs.linear_view()).offset,
            ),
            c.index() == old(self)@.constraints@.len(),
    {
        let (vars, coeffs, offset) = lhs.into_linear_expr().minus(rhs.into_linear_expr()).into_parts();
        self.post_terms(vars, coeffs, 0 - offset as i128, 0 - offset as i128)
    }

    /// Every expression takes a distinct value.
    pub fn add_all_different(&mut self, exprs: impl IntoItems<LinearExpr>) -> (c: Constraint)
        ensures
            adds_constraint(old(self)@, final(self)@, Seq::empty()),
            last_kind(final(self)@) matches Some(ConstraintKind::AllDiff(d)) && exprs_are(
                d.exprs@,
                views_of(exprs.items()),
            ),
            c.index() == old(self)@.constraints@.len(),
    {
        let ps = to_protos(exprs.into_items());
        self.push_constraint(
            ConstraintKind::AllDiff(AllDifferentConstraintProto { exprs: ps }),
            Vec::new(),
        )
    }

    // -- objective ----------------------------------------------------------

    /// Minimise a linear expression.
    pub fn minimize(&mut self, expr: impl IntoLinearExpr)
        ensures
            sets_objective(
                old(self)@,
                final(self)@,
                expr.linear_view().vars,
                expr.linear_view().coeffs,
                expr.linear_view().offset as int,
                0,
            ),
    {
        let (vars, coeffs, offset) = expr.into_linear_expr().into_parts();
        self.proto.objective = Some(
            CpObjectiveProto { vars, coeffs, offset: offset as i128, scaling_factor: 0 },
        );
    }

    /// Maximise a linear expression.
    ///
    /// The solver only minimises, so this negates the objective and flips the
    /// sign back through the scaling factor when reporting its value. The
    /// objective's constant is wide enough to hold the negation of any `i64`.
    pub fn maximize(&mut self, expr: impl IntoLinearExpr)
        requires
            expr.linear_view().coeffs_negatable(),
        ensures
            sets_objective(
                old(self)@,
                final(self)@,
                expr.linear_view().vars,
                expr.linear_view().negated_coeffs(),
                -expr.linear_view().offset,
                -1i64,
            ),
    {
        let (vars, coeffs, offset) = expr.into_linear_expr().into_negated_parts();
        self.proto.objective = Some(
            CpObjectiveProto { vars, coeffs, offset: -(offset as i128), scaling_factor: -1 },
        );
    }

    // -- solving ------------------------------------------------------------

    /// Solve with default parameters: the same response as [`crate::solve`]
    /// gives for this model.
    pub fn solve(&self) -> (r: CpSolverResponse)
        ensures
            answers(self@, false, r),
    {
        crate::solver::solve(&self.proto)
    }

    /// Solve with explicit parameters: the same response as
    /// [`crate::solve_with_parameters`] gives for this model.
    pub fn solve_with_parameters(&self, params: &SatParameters) -> (r: CpSolverResponse)
        ensures
            answers(self@, params.stop_after_first_solution, r),
    {
        crate::solver::solve_with_parameters(&self.proto, params)
    }

    /// `Ok(())` if the model is well formed, otherwise an explanation.
    pub fn validate(&self) -> (r: Result<(), String>)
        ensures
            validation_result(self@, r),
    {
        crate::validate::validate(&self.proto)
    }
}


/// The constraint indices of a list of intervals.
fn interval_list(ivs: &Vec<IntervalVar>) -> (r: Vec<i32>)
    ensures
        r@ == interval_indices(ivs@),
{
    let mut r: Vec<i32> = Vec::new();
    let mut i: usize = 0;
    while i < ivs.len()
        invariant
            i <= ivs.len(),
            r@ == interval_indices(ivs@.subrange(0, i as int)),
        decreases ivs.len() - i,
    {
        r.push(ivs[i].0);
        assert(interval_indices(ivs@.subrange(0, i + 1)) =~= interval_indices(
            ivs@.subrange(0, i as int),
        ).push(ivs@[i as int].index()));
        i = i + 1;
    }
    assert(ivs@.subrange(0, ivs.len() as int) =~= ivs@);
    r
}


// ---------------------------------------------------------------------------
// Reading solutions
// ---------------------------------------------------------------------------

impl IntVar {
    /// This variable's value in a solved response.
    pub fn value(self, response: &CpSolverResponse) -> (v: i64)
        requires
            0 <= self.index() < response.solution@.len(),
        ensures
            v == response.solution@[self.index() as int],
    {
        response.solution[self.0 as usize]
    }
}

impl BoolVar {
    /// This literal's value in a solved response.
    ///
    /// Handles negated literals, which are encoded as `-index - 1`.
    pub fn value(self, response: &CpSolverResponse) -> (b: bool)
        requires
            0 <= literal_var(self.literal()) < response.solution@.len(),
        ensures
            b == literal_value(self.literal(), response.solution@),
    {
        if self.0 >= 0 {
            response.solution[self.0 as usize] != 0
        } else {
            response.solution[(-1 - self.0) as usize] == 0
        }
    }
}

impl core::ops::Not for BoolVar {
    type Output = BoolVar;

    fn not(self) -> (b: BoolVar)
        ensures
            b.literal() == -1 - self.literal(),
    {
        BoolVar(-1 - self.0)
    }
}

impl vstd::std_specs::ops::NotSpecImpl for BoolVar {
    open spec fn obeys_not_spec() -> bool {
        true
    }

    open spec fn not_req(self) -> bool {
        true
    }

    closed spec fn not_spec(self) -> BoolVar {
        BoolVar((-1 - self.0) as i32)
    }
}

// ---------------------------------------------------------------------------
// Expressions over variables
// ---------------------------------------------------------------------------

impl IntoLinearExpr for IntVar {
    /// The expression `x`.
    open spec fn linear_view(&self) -> LinearExprView {
        LinearExprView::term(self.index(), 1, 0)
    }

    fn into_linear_expr(self) -> (e: LinearExpr)
        ensures
            e@.aligned(),
    {
        LinearExpr::term(self.0, 1, 0)
    }
}

impl IntoLinearExpr for BoolVar {
    /// The expression `x` for a literal naming `x`, and `1 - x` for its negation.
    open spec fn linear_view(&self) -> LinearExprView {
        if self.literal() >= 0 {
            LinearExprView::term(self.literal(), 1, 0)
        } else {
            LinearExprView::term((-1 - self.literal()) as i32, -1i64, 1i64)
        }
    }

    fn into_linear_expr(self) -> (e: LinearExpr)
        ensures
            e@.aligned(),
    {
        if self.0 >= 0 {
            LinearExpr::term(self.0, 1, 0)
        } else {
            LinearExpr::term(-1 - self.0, -1, 1)
        }
    }
}

impl From<IntVar> for LinearExpr {
    fn from(v: IntVar) -> (e: LinearExpr)
        ensures
            e@.aligned(),
            e@ == v.linear_view(),
    {
        v.into_linear_expr()
    }
}

impl vstd::std_specs::convert::FromSpecImpl<IntVar> for LinearExpr {
    open spec fn obeys_from_spec() -> bool {
        false
    }

    open spec fn from_spec(v: IntVar) -> LinearExpr {
        arbitrary()
    }
}

impl From<BoolVar> for LinearExpr {
    fn from(b: BoolVar) -> (e: LinearExpr)
        ensures
            e@.aligned(),
            e@ == b.linear_view(),
    {
        b.into_linear_expr()
    }
}

impl vstd::std_specs::convert::FromSpecImpl<BoolVar> for LinearExpr {
    open spec fn obeys_from_spec() -> bool {
        false
    }

    open spec fn from_spec(v: BoolVar) -> LinearExpr {
        arbitrary()
    }
}

} // verus!

verus! {

impl<T: IntoLinearExpr> core::ops::Add<T> for IntVar {
    type Output = LinearExpr;

    fn add(self, rhs: T) -> (e: LinearExpr)
        ensures
            e@.aligned(),
            e@ == self.linear_view().plus(rhs.linear_view()),
    {
        self.into_linear_expr().plus(rhs.into_linear_expr())
    }
}

impl<T: IntoLinearExpr> vstd::std_specs::ops::AddSpecImpl<T> for IntVar {
    open spec fn obeys_add_spec() -> bool {
        false
    }

    open spec fn add_req(self, rhs: T) -> bool {
        self.linear_view().can_add(rhs.linear_view())
    }

    open spec fn add_spec(self, rhs: T) -> LinearExpr {
        arbitrary()
    }
}

impl<T: IntoLinearExpr> core::ops::Sub<T> for IntVar {
    type Output = LinearExpr;

    fn sub(self, rhs: T) -> (e: LinearExpr)
        ensures
            e@.aligned(),
            e@ == self.linear_view().minus(rhs.linear_view()),
    {
        self.into_linear_expr().minus(rhs.into_linear_expr())
    }
}

impl<T: IntoLinearExpr> vstd::std_specs::ops::SubSpecImpl<T> for IntVar {
    open spec fn obeys_sub_spec() -> bool {
        false
    }

    open spec fn sub_req(self, rhs: T) -> bool {
        self.linear_view().can_sub(rhs.linear_view())
    }

    open spec fn sub_spec(self, rhs: T) -> LinearExpr {
        arbitrary()
    }
}

impl core::ops::Mul<i64> for IntVar {
    type Output = LinearExpr;

    fn mul(self, k: i64) -> (e: LinearExpr)
        ensures
            e@.aligned(),
            e@ == self.linear_view().scaled(k),
    {
        self.into_linear_expr().scaled(k)
    }
}

impl vstd::std_specs::ops::MulSpecImpl<i64> for IntVar {
    open spec fn obeys_mul_spec() -> bool {
        false
    }

    open spec fn mul_req(self, k: i64) -> bool {
        self.linear_view().can_scale(k)
    }

    open spec fn mul_spec(self, k: i64) -> LinearExpr {
        arbitrary()
    }
}

impl core::ops::Neg for IntVar {
    type Output = LinearExpr;

    fn neg(self) -> (e: LinearExpr)
        ensures
            e@.aligned(),
            e@ == self.linear_view().negated(),
    {
        self.into_linear_expr().negated()
    }
}

impl vstd::std_specs::ops::NegSpecImpl for IntVar {
    open spec fn obeys_neg_spec() -> bool {
        false
    }

    open spec fn neg_req(self) -> bool {
        self.linear_view().can_negate()
    }

    open spec fn neg_spec(self) -> LinearExpr {
        arbitrary()
    }
}

} // verus!

verus! {

impl<T: IntoLinearExpr> core::ops::Add<T> for BoolVar {
    type Output = LinearExpr;

    fn add(self, rhs: T) -> (e: LinearExpr)
        ensures
            e@.aligned(),
            e@ == self.linear_view().plus(rhs.linear_view()),
    {
        self.into_linear_expr().plus(rhs.into_linear_expr())
    }
}

impl<T: IntoLinearExpr> vstd::std_specs::ops::AddSpecImpl<T> for BoolVar {
    open spec fn obeys_add_spec() -> bool {
        false
    }

    open spec fn add_req(self, rhs: T) -> bool {
        self.linear_view().can_add(rhs.linear_view())
    }

    open spec fn add_spec(self, rhs: T) -> LinearExpr {
        arbitrary()
    }
}

impl<T: IntoLinearExpr> core::ops::Sub<T> for BoolVar {
    type Output = LinearExpr;

    fn sub(self, rhs: T) -> (e: LinearExpr)
        ensures
            e@.aligned(),
            e@ == self.linear_view().minus(rhs.linear_view()),
    {
        self.into_linear_expr().minus(rhs.into_linear_expr())
    }
}

impl<T: IntoLinearExpr> vstd::std_specs::ops::SubSpecImpl<T> for BoolVar {
    open spec fn obeys_sub_spec() -> bool {
        false
    }

    open spec fn sub_req(self, rhs: T) -> bool {
        self.linear_view().can_sub(rhs.linear_view())
    }

    open spec fn sub_spec(self, rhs: T) -> LinearExpr {
        arbitrary()
    }
}

impl core::ops::Mul<i64> for BoolVar {
    type Output = LinearExpr;

    fn mul(self, k: i64) -> (e: LinearExpr)
        ensures
            e@.aligned(),
            e@ == self.linear_view().scaled(k),
    {
        self.into_linear_expr().scaled(k)
    }
}

impl vstd::std_specs::ops::MulSpecImpl<i64> for BoolVar {
    open spec fn obeys_mul_spec() -> bool {
        false
    }

    open spec fn mul_req(self, k: i64) -> bool {
        self.linear_view().can_scale(k)
    }

    open spec fn mul_spec(self, k: i64) -> LinearExpr {
        arbitrary()
    }
}

impl core::ops::Neg for BoolVar {
    type Output = LinearExpr;

    fn neg(self) -> (e: LinearExpr)
        ensures
            e@.aligned(),
            e@ == self.linear_view().negated(),
    {
        self.into_linear_expr().negated()
    }
}

impl vstd::std_specs::ops::NegSpecImpl for BoolVar {
    open spec fn obeys_neg_spec() -> bool {
        false
    }

    open spec fn neg_req(self) -> bool {
        self.linear_view().can_negate()
    }

    open spec fn neg_spec(self) -> LinearExpr {
        arbitrary()
    }
}

} // verus!
