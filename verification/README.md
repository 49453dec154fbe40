# flowbuilder

A workflow library verified with Verus: execution contexts with snapshots
and step logs, workflow configuration and its checks, execution plans whose
phases are layered by dependencies, schedulers and orchestrators, expression
evaluation (`${env:..}`, `${ctx:..}`, `${jq:..}`), and the conversion of
flow graphs into plugin contracts.

Layout:

- `src/` is the library. Each public function states its behaviour in
  `requires` / `ensures`, and the `law_*` proof functions state properties
  that span several calls (snapshot round trips, dependency order in plans,
  scheduling order). Calls into std and outside crates (clocks, UUIDs,
  regular expressions, JSON text) stand behind small trusted functions whose
  doc comments say what is assumed of them.
- `tests/` runs the library on concrete values.
- `app/` is the program around it: file and network I/O, async execution of
  steps and phases, serde conversions, floating point and jq queries (the
  `ExpressionHost` that evaluation is handed).
