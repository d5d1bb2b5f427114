# turbo_effects

Deferred side effects for incremental computations. Tasks emit effects while they run; the effects
are captured into pre-resolved form, deduplicated by key, and applied later, outside of any task. A
shared storage remembers what was last applied to each key, so that applying the same value again
runs nothing.

- `src/` is the library, verified with Verus.
  - `effect`: the traits that effects implement, and emission.
  - `dedup`: one effect per key, and conflicts between effects of the same key.
  - `effects`: batches of captured effects and the result of applying them.
  - `state`, `storage`: the life cycle of a key, and the storage that holds all keys.
  - `protocol`: what holds when many callers use the storage at once.
  - `progress`: a call that has to wait gets through in the end.
  - `reapply`: what one batch after another does to the storage.
  - `key_slots`: the hash map behind the storage, the one part that is trusted.
  - `error`: error types and their messages.
- `app/` runs the library on an async runtime: locks, events and parallelism.
- `tests/` exercises both the single steps and whole batches.
