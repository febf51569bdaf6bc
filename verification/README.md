# Spherepop

A history-first process calculus, verified with Verus.

A world is an append-only history of events together with an option space.
Terms are parsed, type-checked (open- or closed-world), and interpreted
against a world; they can also be compiled to an event IR and run on a stack
machine. Observable state is derived from history under a collapse rule.

## Layout

- `src/kernel` — symbols, events, histories, option spaces, worlds,
  observable states and the reachability geometry, with the conservation
  law (kept by every world operation other than scopes), the composition
  of deformations, the permanence of refusal, the order-blindness of
  accumulation and of refusal counts, the completeness of the identity
  rule and the fibre partition.
- `src/syntax` — terms, the lexer and the parser, each specified by spec
  functions over characters and tokens.
- `src/types` — types and the checker; closed-world typing refines
  open-world typing.
- `src/eval` — values, environments and the interpreter; evaluation
  conserves possibility.
- `src/ir`, `src/compiler`, `src/vm` — the event IR, lowering of terms, the
  machine, and replay equivalence: for every term whose interpretation does
  not run out of depth, running its compiled block leaves the world that
  interpretation leaves and fails exactly when interpretation fails. A
  closure carries its body; the machine compiles the body when the closure
  is applied.
- `src/lib.rs` — `run` and `run_strict`: parse, check, interpret.
- `app/main.rs` — the interactive loop, and the measures that need floating
  point (the admissibility field and observational entropy).
- `tests/` — scenarios over the public API.
