# trex

A complex event processing engine: clients declare tuple types, define rules
that derive events from sequences of events within time windows, subscribe
to the events, and publish events. The library's functions are verified with
Verus against a mathematical model of the engine; the calls into outside
code (the JSON parser, `linear_map`, the clock, hashers, string
formatting) go through small trusted wrappers whose contracts state what
that code is relied on to do; each wrapper is relied on not to panic on
the inputs its `requires` admits (the clock reading gives `None` rather
than panic on a clock before 1970).

## Layout

- `src/expressions.rs`, `src/operations/`, `src/evaluation.rs`: values,
  expressions, their types and their evaluation.
- `src/predicates.rs`, `src/tuples.rs`: the language of rules.
- `src/rule_checks.rs`: type inference of rules.
- `src/stack.rs`, `src/rules.rs`, `src/rule_processor.rs`,
  `src/aggregators.rs`: the evaluation of rules over the events received.
- `src/engine.rs`: the engine (`TRex`): declarations, rules, subscriptions
  and the cascade of publications.
- `src/cache/`: caches of query results (GDSF), counters and hashers.
- `src/sqlite/`: the translation of static predicates into SQL and the
  expansion of query results.
- `src/json.rs`: the service's JSON messages parsed and read into the
  engine's types.
- `src/workloads.rs`: the rules and declarations of the benchmarks, built
  from the random draws handed to them.
- `src/native.rs`, `src/listeners.rs`: notification queues and listeners.
- `app/`: the service around the library (shared state, JSON parsing,
  SQLite access, the throughput benchmark).
- `tests/`: tests of the library.
