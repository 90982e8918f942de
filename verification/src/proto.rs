//! The CP-SAT model and response, as plain data.
//!
//! The field names follow OR-Tools' `cp_model.proto`. Values that the wire
//! format carries as doubles (the objective's offset and scaling factor, the
//! reported objective value) are integers here: every model this crate builds
//! has integral ones.

use vstd::prelude::*;

pub mod constraint_proto;

verus! {

/// A variable: a name and a domain, written as a flat list of inclusive
/// `[lo, hi]` pairs.
#[derive(Clone, Debug)]
pub struct IntegerVariableProto {
    pub name: String,
    pub domain: Vec<i64>,
}

/// `sum coeffs[i] * x[vars[i]] + offset`.
#[derive(Clone, Debug)]
pub struct LinearExpressionProto {
    pub vars: Vec<i32>,
    pub coeffs: Vec<i64>,
    pub offset: i64,
}

/// `sum coeffs[i] * x[vars[i]]` must lie in `domain` (flat `[lo, hi]` pairs).
#[derive(Clone, Debug)]
pub struct LinearConstraintProto {
    pub vars: Vec<i32>,
    pub coeffs: Vec<i64>,
    pub domain: Vec<i64>,
}

/// A target and a list of expressions; for `IntProd`, the target is their product.
#[derive(Clone, Debug)]
pub struct LinearArgumentProto {
    pub target: Option<LinearExpressionProto>,
    pub exprs: Vec<LinearExpressionProto>,
}

/// A list of literals, for `BoolOr` and `BoolAnd`.
#[derive(Clone, Debug)]
pub struct BoolArgumentProto {
    pub literals: Vec<i32>,
}

/// The expressions take pairwise distinct values.
#[derive(Clone, Debug)]
pub struct AllDifferentConstraintProto {
    pub exprs: Vec<LinearExpressionProto>,
}

/// `start + size == end`, with `size >= 0`.
#[derive(Clone, Debug)]
pub struct IntervalConstraintProto {
    pub start: Option<LinearExpressionProto>,
    pub end: Option<LinearExpressionProto>,
    pub size: Option<LinearExpressionProto>,
}

/// The listed intervals (indices of interval constraints) are pairwise disjoint.
#[derive(Clone, Debug)]
pub struct NoOverlapConstraintProto {
    pub intervals: Vec<i32>,
}

/// At every point in time the demands of the intervals covering it sum to at
/// most `capacity`.
#[derive(Clone, Debug)]
pub struct CumulativeConstraintProto {
    pub capacity: Option<LinearExpressionProto>,
    pub intervals: Vec<i32>,
    pub demands: Vec<LinearExpressionProto>,
}

/// A constraint, optionally named and optionally enforced by literals.
#[derive(Clone, Debug)]
pub struct ConstraintProto {
    pub name: String,
    pub enforcement_literal: Vec<i32>,
    pub constraint: Option<constraint_proto::Constraint>,
}

/// Minimise `sum coeffs[i] * x[vars[i]]`; the reported objective value is
/// `scaling_factor * (sum + offset)`, where a scaling factor of zero means one.
///
/// The offset is wide enough to hold the negation of any `i64`, which
/// maximising an expression stores.
#[derive(Clone, Debug)]
pub struct CpObjectiveProto {
    pub vars: Vec<i32>,
    pub coeffs: Vec<i64>,
    pub offset: i128,
    pub scaling_factor: i64,
}

/// A whole model.
#[derive(Clone, Debug)]
pub struct CpModelProto {
    pub name: String,
    pub variables: Vec<IntegerVariableProto>,
    pub constraints: Vec<ConstraintProto>,
    pub objective: Option<CpObjectiveProto>,
}

/// Outcome of a solve.
#[derive(Clone, Copy, Debug, PartialEq, Eq, Structural)]
pub enum CpSolverStatus {
    Unknown,
    ModelInvalid,
    Feasible,
    Infeasible,
    Optimal,
}

/// The answer to a solve: a status and, when a solution was found, one value
/// per variable.
#[derive(Clone, Debug)]
pub struct CpSolverResponse {
    pub status: CpSolverStatus,
    pub solution: Vec<i64>,
    pub objective_value: i64,
}

impl CpSolverResponse {
    /// The status of this response.
    pub fn status(&self) -> (s: CpSolverStatus)
        ensures
            s == self.status,
    {
        self.status
    }
}

/// Parameters of a solve.
#[derive(Clone, Debug)]
pub struct SatParameters {
    /// Stop at the first solution found instead of proving it optimal.
    pub stop_after_first_solution: bool,
}

impl Default for IntegerVariableProto {
    fn default() -> (v: Self)
        ensures
            v.name@.len() == 0,
            v.domain@.len() == 0,
    {
        IntegerVariableProto { name: String::new(), domain: Vec::new() }
    }
}

impl Default for LinearExpressionProto {
    fn default() -> (e: Self)
        ensures
            e.vars@.len() == 0,
            e.coeffs@.len() == 0,
            e.offset == 0,
    {
        LinearExpressionProto { vars: Vec::new(), coeffs: Vec::new(), offset: 0 }
    }
}

impl Default for ConstraintProto {
    fn default() -> (c: Self)
        ensures
            c.name@.len() == 0,
            c.enforcement_literal@.len() == 0,
            c.constraint is None,
    {
        ConstraintProto { name: String::new(), enforcement_literal: Vec::new(), constraint: None }
    }
}

impl Default for CpModelProto {
    fn default() -> (m: Self)
        ensures
            m.name@.len() == 0,
            m.variables@.len() == 0,
            m.constraints@.len() == 0,
            m.objective is None,
    {
        CpModelProto {
            name: String::new(),
            variables: Vec::new(),
            constraints: Vec::new(),
            objective: None,
        }
    }
}

impl Default for SatParameters {
    fn default() -> (p: Self)
        ensures
            !p.stop_after_first_solution,
    {
        SatParameters { stop_after_first_solution: false }
    }
}

} // verus!
