# rlmesh

The decision logic of the RLMesh model-environment evaluation SDK, written in
Verus with its contracts proved.

- `src/` is the verified library: address parsing and rendering, the error
  taxonomy and the mapping of transport failures onto it, serve-option
  normalization, the env wire checks (per-lane counts, lane fan-out of resets
  and their options, info batching, phase folding, value conformance), the
  episode-id authority of the direct env client, the single-env adapter, the
  model engine's corner selection, chunk prefixes and grouped fusion, the
  served model's request sequencing, resolved routes and resolve checks, the
  episode lifecycle bookkeeping, the direct model client's replay session, the
  input-signature annotations and the session telemetry mapping.
- `tests/` exercises the library from outside.
- `app/` holds what runs around it: the async environment and model traits,
  the lane actor threads, the stale-socket probe before a Unix bind, the
  validation-policy setting, and `Display` for the library's error.

Floating-point quantities (rewards, latencies, rates, box bounds) are carried
in the library as their IEEE-754 bit patterns and are only ever copied.
