# rvtest

A testing framework for Rust — BDD-style specs, parametrized and
property-based tests, several report formats, architecture checks,
snapshot assertions and coverage collection — whose logic is verified
with Verus.

## Layout

- `src/` — the verified library.
  - `model/` — durations, statuses, cases, suites, runs and the run
    configuration (`mod.rs`); the character-level text helpers
    (`text.rs`); specs, their planning and execution decisions
    (`spec.rs`); tag and name filters (`tag.rs`).
  - `report.rs` — the pretty, TAP, JUnit, JSON, compact and GitHub
    reporters, each specified as the exact text it produces.
  - `runner.rs` — the runner that executes specs and renders runs. The
    library never calls a test body itself: a run hands each test to an
    executor supplied by the caller and records the outcome it reports.
  - `cli.rs` — reading `cargo test` output into a suite.
  - `arch.rs`, `arch/graph.rs` — architecture rules, the module
    dependency graph of a crate and its cycle search. The graph keeps
    each module's dependencies as a duplicate-free `Vec` in order of first
    mention, not in `HashMap`/`HashSet`: with `String` keys vstd's
    specifications give those too little to prove the rules against, and
    a hashed walk has no order to state reports in.
  - `snapshot.rs`, `param.rs`, `property.rs` — snapshot verdicts,
    parametrized cases, property checks with `rand`.
  - `coverage.rs`, `coverage_raw.rs` — coverage decisions and the raw
    LLVM profile parser.
- `tests/` — tests run against the compiled library.
- `app/` — the `cargo rvtest` program and everything that performs I/O,
  catches panics, uses threads or floating point.
