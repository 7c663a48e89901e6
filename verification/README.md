# hive

The decision logic of the hive backend's infrastructure, verified with Verus:
caches and their eviction, invalidation rules and dependency tracking, the
circuit breaker, connection and worker pools, task bookkeeping, alert
suppression, cache warming, configuration checks and monitoring advice.

- `src/` is the verified library. Every public function states what it
  returns or changes in its `ensures`; the `lemma_*` proof functions state the
  properties that span several operations (what a read gives back of a
  write, what one call undoes of another, what every operation keeps).
  Time is passed in as milliseconds, so the logic is deterministic.
- `app/` is the runtime around it: clocks and identifiers, configuration
  files and environment variables, database connections, async wrappers, and
  the floating-point rates and scores, which hand their comparisons to the
  library.
- `tests/` exercises the library on concrete values.
