# cpsat

Build constraint models in the shape of Google's CP-SAT `CpModelProto`, check
that they are well formed, and solve them, with every step specified and
proved in Verus.

## Layout

| Path | What |
|---|---|
| `src/proto.rs`, `src/proto/` | The model, the response and the parameters as plain data. |
| `src/expr.rs` | `LinearExpr` and its operators; each states the expression it builds. |
| `src/builder.rs` | `CpModelBuilder` and the variable, interval and constraint handles. |
| `src/semantics.rs` | What a model means: when an assignment is a solution, what it costs. |
| `src/validity.rs`, `src/validate.rs` | Which models are well formed, and the check for it. |
| `src/check.rs` | Deciding, for a well-formed model, whether an assignment is a solution. |
| `src/solver.rs` | An exhaustive solver, proved sound, complete and optimal. |
| `src/laws.rs` | Properties that span several functions. |
| `app/` | The same model as `prost` messages, and Google's CP-SAT behind its C shim. |

The solver in `src/` visits every assignment within the domains, so it is meant
for small models; `app/` hands large ones to CP-SAT itself.

The model type holds a part of CP-SAT's `CpModelProto`: integer variables, the
constraints `bool_or`, `bool_and`, `at_most_one`, `exactly_one`, `bool_xor`,
`int_prod`, `lin_max`, `linear`, `all_diff`, `interval`, `no_overlap` and
`cumulative` with enforcement literals, and an integral objective.
`CpModelBuilder::proto_mut` reaches everything the model type holds, not every
CP-SAT constraint: element, table, circuit, automaton, inverse, reservoir,
search strategies, hints and assumptions are not part of it. Of CP-SAT's
parameters only `stop_after_first_solution` is kept.
