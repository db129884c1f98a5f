# runen_spatial

Host-neutral spatial identity, checked grid arithmetic, deterministic
spatial hashing, multi-source spatial demand planning and a budgeted,
content-agnostic chunk streaming controller, written in Verus and proved
against its contracts.

## Layout

- `src/` — the verified library.
  - `ids`, `grid`, `clipmap`, `ring`, `hash`, `error`: identities, the
    chunk/region partition, the grid hierarchy, clipmap windows, ring
    buffer slots and spatial hashing, all on integer coordinates.
  - `demand`: sources publish complete snapshots (a focus box and pins);
    the planner merges them into one ranked, bounded effective demand and
    reports what entered, changed and left. Batches are atomic.
  - `streaming`: the controller turns demand into budgeted load and unload
    requests, tracks each chunk's availability and operation within a
    capacity (tracked records, loads and unloads in flight), reports its
    pressure after each tick, and accepts the provider's answers.
  - `adapter`: exact, checked conversion of host-engine values.
  - `text`, `repository`: byte-level text scanning and the repository's
    own file, manifest, source and Markdown policy.
  - `render`: error messages built character by character, with their
    exact text stated.
  - `order`, `seqs`: orderings and sequence facts the proofs share.
- `tests/` — tests of the library from outside.
- `app/` — what is not verified: metric (floating-point) positions,
  frames and conversions into chunk coordinates, serialisable copies of
  the configurations, the Godot node, a streaming demo and the repository
  validation command.
