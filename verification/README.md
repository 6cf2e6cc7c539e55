# box3d demo logic, verified

The integer and text logic behind the box3d browser demo samples, written in
Verus and proved against its contracts. The physics scenes themselves run on
the engine and on single-precision floats; what they decide with plain values
lives here.

- `src/rng.rs` — the samples' xorshift32 stream (`XorShift32`, seed-cell
  draws) and the prop-placement LCG.
- `src/basin.rs` — the Gear Lift basin mesh index buffer (`push_cap`), wound
  as the outline's single-precision coordinates give it.
- `src/mover_data.rs` — the mover settings packed into shape user data.
- `src/sensor_events.rs` — sensor benchmark user data and filter, event
  counts, step clock, consumed-visitor ordering, hit-event capping, joint
  and contact tracking.
- `src/vis_set.rs` — indexed render slots with swap-remove.
- `src/cast_slots.rs` — the Cast World ring of body slots.
- `src/json_text.rs` — JSON escaping, with its decoding round trip, and the
  HUD readout.
- `src/obj_text.rs` — Wavefront OBJ lines, words, references and faces, and
  the reading of a whole text given which vertex lines hold numbers.
- `src/bvh_levels.rs` — the level-by-level walk of the mesh BVH inspector.
- `src/kinds.rs` — scene and body selectors.
- `app/lib.rs` — the float side: float draws, OBJ coordinates, label JSON.
