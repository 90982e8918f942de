//! Linear expressions: a weighted sum of variables plus a constant.

use vstd::prelude::*;

use crate::items::IntoItems;
use crate::proto::LinearExpressionProto;
use crate::semantics::terms_value;

verus! {

/// The mathematical content of a [`LinearExpr`]: `sum coeffs[i] * x[vars[i]] + offset`.
pub struct LinearExprView {
    pub vars: Seq<i32>,
    pub coeffs: Seq<i64>,
    pub offset: i64,
}

impl LinearExprView {
    /// One coefficient per variable, as in every [`LinearExpr`].
    pub open spec fn aligned(self) -> bool {
        self.vars.len() == self.coeffs.len()
    }

    /// The value of the expression when variable `i` takes `values[i]`.
    pub open spec fn value(self, values: Seq<i64>) -> int {
        terms_value(self.vars, self.coeffs, values) + self.offset
    }

    /// The expression `0`.
    pub open spec fn zero() -> LinearExprView {
        LinearExprView { vars: Seq::empty(), coeffs: Seq::empty(), offset: 0 }
    }

    /// The constant expression `c`.
    pub open spec fn constant(c: i64) -> LinearExprView {
        LinearExprView { vars: Seq::empty(), coeffs: Seq::empty(), offset: c }
    }

    /// The expression `coeff * x[var] + offset`.
    pub open spec fn term(var: i32, coeff: i64, offset: i64) -> LinearExprView {
        LinearExprView { vars: seq![var], coeffs: seq![coeff], offset }
    }

    /// `self + other` keeps its constant within `i64`.
    pub open spec fn can_add(self, other: LinearExprView) -> bool {
        i64::MIN <= self.offset + other.offset <= i64::MAX
    }

    /// `self + other`: the terms of both, the constants added.
    pub open spec fn plus(self, other: LinearExprView) -> LinearExprView {
        LinearExprView {
            vars: self.vars + other.vars,
            coeffs: self.coeffs + other.coeffs,
            offset: (self.offset + other.offset) as i64,
        }
    }

    /// Negating every coefficient keeps it within `i64`.
    pub open spec fn coeffs_negatable(self) -> bool {
        forall|i: int| 0 <= i < self.coeffs.len() ==> #[trigger] self.coeffs[i] != i64::MIN
    }

    /// The coefficients, each negated.
    pub open spec fn negated_coeffs(self) -> Seq<i64> {
        self.coeffs.map_values(|c: i64| (-c) as i64)
    }

    /// `-self` keeps every coefficient and the constant within `i64`.
    pub open spec fn can_negate(self) -> bool {
        &&& self.offset != i64::MIN
        &&& self.coeffs_negatable()
    }

    /// `-self`: every coefficient and the constant negated.
    pub open spec fn negated(self) -> LinearExprView {
        LinearExprView {
            vars: self.vars,
            coeffs: self.coeffs.map_values(|c: i64| (-c) as i64),
            offset: (-self.offset) as i64,
        }
    }

    /// `self - other` keeps every number within `i64`.
    pub open spec fn can_sub(self, other: LinearExprView) -> bool {
        other.can_negate() && self.can_add(other.negated())
    }

    /// `self - other`, that is `self + (-other)`.
    pub open spec fn minus(self, other: LinearExprView) -> LinearExprView {
        self.plus(other.negated())
    }

    /// `self * k` keeps every coefficient and the constant within `i64`.
    pub open spec fn can_scale(self, k: i64) -> bool {
        &&& i64::MIN <= self.offset * k <= i64::MAX
        &&& forall|i: int|
            0 <= i < self.coeffs.len() ==> i64::MIN <= #[trigger] self.coeffs[i] * k <= i64::MAX
    }

    /// `self * k`: every coefficient and the constant multiplied by `k`.
    pub open spec fn scaled(self, k: i64) -> LinearExprView {
        LinearExprView {
            vars: self.vars,
            coeffs: self.coeffs.map_values(|c: i64| (c * k) as i64),
            offset: (self.offset * k) as i64,
        }
    }
}

/// A weighted sum of variables plus a constant.
#[derive(Debug, PartialEq, Eq)]
pub struct LinearExpr {
    vars: Vec<i32>,
    coeffs: Vec<i64>,
    offset: i64,
}

impl View for LinearExpr {
    type V = LinearExprView;

    closed spec fn view(&self) -> LinearExprView {
        LinearExprView { vars: self.vars@, coeffs: self.coeffs@, offset: self.offset }
    }
}

impl LinearExpr {
    #[verifier::type_invariant]
    spec fn terms_aligned(self) -> bool {
        self.vars.len() == self.coeffs.len()
    }

    /// The constant zero.
    pub fn zero() -> (e: LinearExpr)
        ensures
            e@.aligned(),
            e@ == LinearExprView::zero(),
    {
        LinearExpr { vars: Vec::new(), coeffs: Vec::new(), offset: 0 }
    }

    /// The expression `coeff * x[var] + offset`.
    pub(crate) fn term(var: i32, coeff: i64, offset: i64) -> (e: LinearExpr)
        ensures
            e@.aligned(),
            e@ == LinearExprView::term(var, coeff, offset),
    {
        let mut vars = Vec::new();
        vars.push(var);
        let mut coeffs = Vec::new();
        coeffs.push(coeff);
        LinearExpr { vars, coeffs, offset }
    }

    /// `self + rhs`.
    pub fn plus(self, rhs: LinearExpr) -> (e: LinearExpr)
        requires
            self@.can_add(rhs@),
        ensures
            e@.aligned(),
            e@ == self@.plus(rhs@),
    {
        proof {
            use_type_invariant(&self);
            use_type_invariant(&rhs);
        }
        let LinearExpr { vars: mut vars, coeffs: mut coeffs, offset } = self;
        let LinearExpr { vars: mut rvars, coeffs: mut rcoeffs, offset: roffset } = rhs;
        vars.append(&mut rvars);
        coeffs.append(&mut rcoeffs);
        LinearExpr { vars, coeffs, offset: offset + roffset }
    }

    /// `-self`.
    pub fn negated(self) -> (e: LinearExpr)
        requires
            self@.can_negate(),
        ensures
            e@.aligned(),
            e@ == self@.negated(),
    {
        let (vars, coeffs, offset) = self.into_negated_parts();
        LinearExpr { vars, coeffs, offset: -offset }
    }

    /// `self * k`.
    pub fn scaled(self, k: i64) -> (e: LinearExpr)
        requires
            self@.can_scale(k),
        ensures
            e@.aligned(),
            e@ == self@.scaled(k),
    {
        proof {
            use_type_invariant(&self);
        }
        let ghost v = self@;
        let LinearExpr { vars, coeffs, offset } = self;
        assert(coeffs@ == v.coeffs && vars@ == v.vars && offset == v.offset);
        let mut out: Vec<i64> = Vec::new();
        let mut i: usize = 0;
        while i < coeffs.len()
            invariant
                i <= coeffs.len(),
                out@.len() == i,
                forall|j: int|
                    0 <= j < coeffs@.len() ==> i64::MIN <= #[trigger] coeffs@[j] * k <= i64::MAX,
                forall|j: int| 0 <= j < i ==> out@[j] == coeffs@[j] * k,
            decreases coeffs.len() - i,
        {
            out.push(coeffs[i] * k);
            i = i + 1;
        }
        assert(out@ =~= coeffs@.map_values(|c: i64| (c * k) as i64));
        LinearExpr { vars, coeffs: out, offset: offset * k }
    }

    /// `self - rhs`.
    pub fn minus(self, rhs: LinearExpr) -> (e: LinearExpr)
        requires
            self@.can_sub(rhs@),
        ensures
            e@.aligned(),
            e@ == self@.minus(rhs@),
    {
        let n = rhs.negated();
        self.plus(n)
    }

    /// The terms with every coefficient negated, and the constant, taken apart.
    pub(crate) fn into_negated_parts(self) -> (r: (Vec<i32>, Vec<i64>, i64))
        requires
            self@.coeffs_negatable(),
        ensures
            r.0@ == self@.vars,
            r.1@ == self@.negated_coeffs(),
            r.2 == self@.offset,
            r.0@.len() == r.1@.len(),
    {
        proof {
            use_type_invariant(&self);
        }
        let ghost v = self@;
        let LinearExpr { vars, coeffs, offset } = self;
        assert(coeffs@ == v.coeffs && vars@ == v.vars && offset == v.offset);
        let mut out: Vec<i64> = Vec::new();
        let mut i: usize = 0;
        while i < coeffs.len()
            invariant
                i <= coeffs.len(),
                out@.len() == i,
                forall|j: int| 0 <= j < coeffs@.len() ==> #[trigger] coeffs@[j] != i64::MIN,
                forall|j: int| 0 <= j < i ==> out@[j] == -coeffs@[j],
            decreases coeffs.len() - i,
        {
            out.push(-coeffs[i]);
            i = i + 1;
        }
        assert(out@ =~= coeffs@.map_values(|c: i64| (-c) as i64));
        (vars, out, offset)
    }

    /// The terms and constant, taken apart.
    pub(crate) fn into_parts(self) -> (r: (Vec<i32>, Vec<i64>, i64))
        ensures
            r.0@ == self@.vars,
            r.1@ == self@.coeffs,
            r.2 == self@.offset,
            r.0@.len() == r.1@.len(),
    {
        proof {
            use_type_invariant(&self);
        }
        (self.vars, self.coeffs, self.offset)
    }
}

impl Clone for LinearExpr {
    fn clone(&self) -> (e: LinearExpr)
        ensures
            e@.aligned(),
            e@ == self@,
    {
        proof {
            use_type_invariant(self);
        }
        let vars = self.vars.clone();
        let coeffs = self.coeffs.clone();
        assert(vars@ =~= self.vars@);
        assert(coeffs@ =~= self.coeffs@);
        LinearExpr { vars, coeffs, offset: self.offset }
    }
}

impl Default for LinearExpr {
    fn default() -> (e: LinearExpr)
        ensures
            e@.aligned(),
            e@ == LinearExprView::zero(),
    {
        LinearExpr::zero()
    }
}

/// Values that stand for a linear expression: constants, variables and
/// expressions themselves.
pub trait IntoLinearExpr: Sized {
    /// The expression this value stands for.
    spec fn linear_view(&self) -> LinearExprView;

    fn into_linear_expr(self) -> (e: LinearExpr)
        ensures
            e@.aligned(),
            e@ == self.linear_view(),
    ;
}

impl IntoLinearExpr for LinearExpr {
    open spec fn linear_view(&self) -> LinearExprView {
        self@
    }

    fn into_linear_expr(self) -> (e: LinearExpr)
        ensures
            e@.aligned(),
    {
        proof {
            use_type_invariant(&self);
        }
        self
    }
}

impl IntoLinearExpr for i64 {
    open spec fn linear_view(&self) -> LinearExprView {
        LinearExprView::constant(*self)
    }

    fn into_linear_expr(self) -> (e: LinearExpr)
        ensures
            e@.aligned(),
    {
        LinearExpr { vars: Vec::new(), coeffs: Vec::new(), offset: self }
    }
}

impl From<i64> for LinearExpr {
    fn from(offset: i64) -> (e: LinearExpr)
        ensures
            e@.aligned(),
            e@ == LinearExprView::constant(offset),
    {
        offset.into_linear_expr()
    }
}

// The std operator and conversion traits ask for a spec of the result as an
// exec value; a `LinearExpr` is described by its view instead, so each impl
// below states its result in its own `ensures` and declares no trait-level spec.
impl vstd::std_specs::convert::FromSpecImpl<i64> for LinearExpr {
    open spec fn obeys_from_spec() -> bool {
        false
    }

    open spec fn from_spec(v: i64) -> LinearExpr {
        arbitrary()
    }
}

impl From<LinearExpr> for LinearExpressionProto {
    fn from(e: LinearExpr) -> (p: LinearExpressionProto)
        ensures
            p.vars@ == e@.vars,
            p.coeffs@ == e@.coeffs,
            p.offset == e@.offset,
    {
        let (vars, coeffs, offset) = e.into_parts();
        LinearExpressionProto { vars, coeffs, offset }
    }
}

impl vstd::std_specs::convert::FromSpecImpl<LinearExpr> for LinearExpressionProto {
    open spec fn obeys_from_spec() -> bool {
        false
    }

    open spec fn from_spec(v: LinearExpr) -> LinearExpressionProto {
        arbitrary()
    }
}

impl<T: IntoLinearExpr> core::ops::Add<T> for LinearExpr {
    type Output = LinearExpr;

    fn add(self, rhs: T) -> (e: LinearExpr)
        ensures
            e@.aligned(),
            e@ == self@.plus(rhs.linear_view()),
    {
        let r = rhs.into_linear_expr();
        self.plus(r)
    }
}

impl<T: IntoLinearExpr> vstd::std_specs::ops::AddSpecImpl<T> for LinearExpr {
    open spec fn obeys_add_spec() -> bool {
        false
    }

    open spec fn add_req(self, rhs: T) -> bool {
        self@.can_add(rhs.linear_view())
    }

    open spec fn add_spec(self, rhs: T) -> LinearExpr {
        arbitrary()
    }
}

impl<T: IntoLinearExpr> core::ops::Sub<T> for LinearExpr {
    type Output = LinearExpr;

    fn sub(self, rhs: T) -> (e: LinearExpr)
        ensures
            e@.aligned(),
            e@ == self@.minus(rhs.linear_view()),
    {
        let r = rhs.into_linear_expr();
        self.minus(r)
    }
}

impl<T: IntoLinearExpr> vstd::std_specs::ops::SubSpecImpl<T> for LinearExpr {
    open spec fn obeys_sub_spec() -> bool {
        false
    }

    open spec fn sub_req(self, rhs: T) -> bool {
        self@.can_sub(rhs.linear_view())
    }

    open spec fn sub_spec(self, rhs: T) -> LinearExpr {
        arbitrary()
    }
}

impl core::ops::Neg for LinearExpr {
    type Output = LinearExpr;

    fn neg(self) -> (e: LinearExpr)
        ensures
            e@.aligned(),
            e@ == self@.negated(),
    {
        self.negated()
    }
}

impl vstd::std_specs::ops::NegSpecImpl for LinearExpr {
    open spec fn obeys_neg_spec() -> bool {
        false
    }

    open spec fn neg_req(self) -> bool {
        self@.can_negate()
    }

    open spec fn neg_spec(self) -> LinearExpr {
        arbitrary()
    }
}

impl core::ops::Mul<i64> for LinearExpr {
    type Output = LinearExpr;

    fn mul(self, k: i64) -> (e: LinearExpr)
        ensures
            e@.aligned(),
            e@ == self@.scaled(k),
    {
        self.scaled(k)
    }
}

impl vstd::std_specs::ops::MulSpecImpl<i64> for LinearExpr {
    open spec fn obeys_mul_spec() -> bool {
        false
    }

    open spec fn mul_req(self, k: i64) -> bool {
        self@.can_scale(k)
    }

    open spec fn mul_spec(self, k: i64) -> LinearExpr {
        arbitrary()
    }
}

/// `vs[0] + vs[1] + ...`, added from the left starting at zero.
pub open spec fn sum_views(vs: Seq<LinearExprView>) -> LinearExprView
    decreases vs.len(),
{
    if vs.len() == 0 {
        LinearExprView::zero()
    } else {
        sum_views(vs.drop_last()).plus(vs.last())
    }
}

/// Adding `vs` from the left keeps every constant within `i64`.
pub open spec fn can_sum(vs: Seq<LinearExprView>) -> bool
    decreases vs.len(),
{
    vs.len() == 0 || (can_sum(vs.drop_last()) && sum_views(vs.drop_last()).can_add(vs.last()))
}

/// The expressions a list of values stands for.
pub open spec fn linear_views<T: IntoLinearExpr>(ts: Seq<T>) -> Seq<LinearExprView> {
    ts.map_values(|t: T| t.linear_view())
}

/// The expressions `term * weight` of a list of weighted terms.
pub open spec fn weighted_views<T: IntoLinearExpr>(ts: Seq<(T, i64)>) -> Seq<LinearExprView> {
    ts.map_values(|p: (T, i64)| p.0.linear_view().scaled(p.1))
}

/// Every `term * weight` keeps its numbers within `i64`.
pub open spec fn can_weigh<T: IntoLinearExpr>(ts: Seq<(T, i64)>) -> bool {
    forall|i: int| 0 <= i < ts.len() ==> #[trigger] ts[i].0.linear_view().can_scale(ts[i].1)
}

/// The items of `v`, last first.
fn reversed<T>(v: Vec<T>) -> (r: Vec<T>)
    ensures
        r@.len() == v@.len(),
        forall|i: int| 0 <= i < r@.len() ==> r@[i] == v@[v@.len() - 1 - i],
{
    let mut v = v;
    let ghost v0 = v@;
    let mut r: Vec<T> = Vec::new();
    while v.len() > 0
        invariant
            v@ == v0.subrange(0, v@.len() as int),
            r@.len() + v@.len() == v0.len(),
            forall|i: int| 0 <= i < r@.len() ==> r@[i] == v0[v0.len() - 1 - i],
        decreases v.len(),
    {
        let x = v.pop().unwrap();
        r.push(x);
    }
    r
}

impl LinearExpr {
    /// Sum of `terms`.
    pub fn sum<T: IntoLinearExpr>(terms: impl IntoItems<T>) -> (e: LinearExpr)
        requires
            can_sum(linear_views(terms.items())),
        ensures
            e@.aligned(),
            e@ == sum_views(linear_views(terms.items())),
    {
        let ghost items = terms.items();
        let ghost views = linear_views(items);
        let mut rest = reversed(terms.into_items());
        let mut acc = LinearExpr::zero();
        let ghost mut k: int = 0;
        while rest.len() > 0
            invariant
                views == linear_views(items),
                can_sum(views),
                0 <= k <= items.len(),
                k + rest@.len() == items.len(),
                forall|i: int| 0 <= i < rest@.len() ==> rest@[i] == items[items.len() - 1 - i],
                acc@ == sum_views(views.subrange(0, k)),
            decreases rest.len(),
        {
            let t = rest.pop().unwrap();
            assert(t == items[k]);
            proof {
                lemma_can_sum_prefix(views, k + 1);
                assert(views.subrange(0, k + 1).drop_last() =~= views.subrange(0, k));
            }
            let e = t.into_linear_expr();
            acc = acc.plus(e);
            proof {
                k = k + 1;
            }
        }
        assert(views.subrange(0, k) =~= views);
        proof {
            use_type_invariant(&acc);
        }
        acc
    }

    /// Weighted sum of `(term, weight)` pairs.
    pub fn weighted_sum<T: IntoLinearExpr>(terms: impl IntoItems<(T, i64)>) -> (e: LinearExpr)
        requires
            can_weigh(terms.items()),
            can_sum(weighted_views(terms.items())),
        ensures
            e@.aligned(),
            e@ == sum_views(weighted_views(terms.items())),
    {
        let ghost items = terms.items();
        let ghost views = weighted_views(items);
        let mut rest = reversed(terms.into_items());
        let mut acc = LinearExpr::zero();
        let ghost mut k: int = 0;
        while rest.len() > 0
            invariant
                views == weighted_views(items),
                can_weigh(items),
                can_sum(views),
                0 <= k <= items.len(),
                k + rest@.len() == items.len(),
                forall|i: int| 0 <= i < rest@.len() ==> rest@[i] == items[items.len() - 1 - i],
                acc@ == sum_views(views.subrange(0, k)),
            decreases rest.len(),
        {
            let (t, w) = rest.pop().unwrap();
            assert((t, w) == items[k]);
            assert(items[k].0.linear_view().can_scale(items[k].1));
            proof {
                lemma_can_sum_prefix(views, k + 1);
                assert(views.subrange(0, k + 1).drop_last() =~= views.subrange(0, k));
            }
            let e = t.into_linear_expr().scaled(w);
            acc = acc.plus(e);
            proof {
                k = k + 1;
            }
        }
        assert(views.subrange(0, k) =~= views);
        proof {
            use_type_invariant(&acc);
        }
        acc
    }
}

/// A prefix of a list that can be summed can be summed.
pub proof fn lemma_can_sum_prefix(vs: Seq<LinearExprView>, k: int)
    requires
        can_sum(vs),
        0 <= k <= vs.len(),
    ensures
        can_sum(vs.subrange(0, k)),
        k > 0 ==> sum_views(vs.subrange(0, k - 1)).can_add(vs[k - 1]),
    decreases vs.len(),
{
    if k < vs.len() {
        assert(vs.drop_last().subrange(0, k) =~= vs.subrange(0, k));
        assert(k > 0 ==> vs.drop_last().subrange(0, k - 1) =~= vs.subrange(0, k - 1));
        lemma_can_sum_prefix(vs.drop_last(), k);
    } else {
        assert(vs.subrange(0, k) =~= vs);
        if k > 0 {
            assert(vs.drop_last() =~= vs.subrange(0, k - 1));
        }
    }
}

} // verus!
