# multiway

Sampled external-sampling MCCFR for multiway poker, split into a verified
core and a thin runnable layer.

`src/` is the Verus-verified core. It holds everything the solver decides
on integers and bytes:

- `keys`, `order`, `digest`, `domains`: public-history and information-set
  keys, their total order, BLAKE3 framing and lowercase hex.
- `storage`, `config`: policy columns and memory accounting, configuration
  validation, resume compatibility and the configuration fingerprint.
- `store`: the solver state (the game's recall mode, sorted history trie
  and policy columns, counters), checkpoint snapshot and restore, and the laws that restoring a
  snapshot rebuilds the same state.
- `worker`, `merge`: a traversal's bookkeeping log and the ordered,
  all-or-nothing merge of one sweep's per-seat deltas.
- `resume`: why every store reached by creation and committed sweeps can be
  checkpointed and resumed: a fresh store meets the resume checks, and a
  sweep whose events describe valid edges and menus keeps them.
- `schedule`, `streams`: traversal partition, sweep batching, discount
  cadence, and the per-traversal ChaCha20 stream keys.
- `continuation`, `preflop`, `deviator`, `endpoint`, `census`: the
  decision rules and identities of the diagnostics.

Binary32/binary64 values are kept as bit patterns in the core; `float_bits`
states the IEEE-754 predicates it needs on them.

`app/` is ordinary Rust: the game and world-sampler traits, the
floating-point traversal and accumulation, the worker threads, displayable
errors and serializable copies of the checkpoint types.

`tests/` exercises the core through its public API.

Scope: every game, whatever its recall mode, is stored in the sparse store.
The crate has no dense, preallocated street-recall arena, no vector
traverser and no pruning. It also has no drivers for the support census,
preflop and endpoint deviation evaluation, conditioned evaluation, deviator
training or the drift tracker. Their integer cores (`census`, `preflop`,
`endpoint`, `deviator`, `continuation`) are in `src/`.
