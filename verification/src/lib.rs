//! Build constraint models in the shape of Google's CP-SAT protobuf, and solve
//! them.
//!
//! ```no_run
//! use cpsat::CpModelBuilder;
//!
//! let mut m = CpModelBuilder::default();
//! let x = m.new_int_var(0..=10);
//! let y = m.new_int_var(0..=10);
//! m.add_le(x + y, 12);
//! m.maximize(x * 2 + y);
//!
//! let response = m.solve();
//! println!("x = {}", x.value(&response));
//! ```
//!
//! # Scope
//!
//! The model is plain data ([`proto`]). Everything here is a convenience layer
//! over it, and [`CpModelBuilder::proto_mut`] is an escape hatch to that data:
//! whatever the model type holds can be set directly, including what the
//! builder has no method for (constraint names, enforcement on any constraint,
//! the boolean constraints posted by hand).
//!
//! The model type holds a part of CP-SAT's `CpModelProto`: integer variables,
//! and the constraints `bool_or`, `bool_and`, `at_most_one`, `exactly_one`,
//! `bool_xor`, `int_prod`, `lin_max`, `linear`, `all_diff`, `interval`,
//! `no_overlap` and `cumulative`, each with optional enforcement literals, and
//! an integral objective. Other CP-SAT constraints (element, table, circuit,
//! automaton, inverse, reservoir and the rest), search strategies, solution
//! hints and assumptions are not part of it. Of CP-SAT's parameters,
//! [`proto::SatParameters`] holds only whether to stop at the first solution.
//!
//! What a model means is written down in [`semantics`], which models are well
//! formed in [`validity`], and [`solver`] finds solutions that provably
//! satisfy every constraint and are provably optimal.

pub mod builder;
mod check;
pub mod expr;
pub mod items;
pub mod laws;
pub mod proto;
pub mod semantics;
pub mod solver;
mod validate;
pub mod validity;

pub use builder::{BoolVar, Constraint, CpModelBuilder, IntVar, IntervalVar};
pub use expr::{IntoLinearExpr, LinearExpr, LinearExprView};
pub use items::IntoItems;
pub use solver::{solve, solve_with_parameters};
pub use validate::validate;

/// Outcome of a solve, mirroring `CpSolverStatus`.
pub use proto::CpSolverStatus as Status;
