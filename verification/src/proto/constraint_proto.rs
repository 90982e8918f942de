//! The kinds of constraint a [`ConstraintProto`](super::ConstraintProto) can hold.

use vstd::prelude::*;

use super::{
    AllDifferentConstraintProto, BoolArgumentProto, CumulativeConstraintProto,
    IntervalConstraintProto, LinearArgumentProto, LinearConstraintProto, NoOverlapConstraintProto,
};

verus! {

/// One constraint of a model.
#[derive(Clone, Debug)]
pub enum Constraint {
    /// At least one literal is true.
    BoolOr(BoolArgumentProto),
    /// Every literal is true.
    BoolAnd(BoolArgumentProto),
    /// At most one literal is true.
    AtMostOne(BoolArgumentProto),
    /// Exactly one literal is true.
    ExactlyOne(BoolArgumentProto),
    /// An odd number of literals is true.
    BoolXor(BoolArgumentProto),
    /// The target equals the product of the expressions.
    IntProd(LinearArgumentProto),
    /// The target equals the largest of the expressions.
    LinMax(LinearArgumentProto),
    Linear(LinearConstraintProto),
    AllDiff(AllDifferentConstraintProto),
    Interval(IntervalConstraintProto),
    NoOverlap(NoOverlapConstraintProto),
    Cumulative(CumulativeConstraintProto),
}

} // verus!
