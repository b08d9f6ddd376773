# pfengine

The deterministic core of a platform-fighter engine with rollback netcode,
written in Verus: the simulation is a pure function
`new_state = advance(old_state, inputs)`, computed in fixed-point
arithmetic, and its contracts and proofs say exactly what every tick does.

## Layout

- `src/` — the verified library.
  - `math/` — the `I16F16` fixed-point scalar `Fx` (its arithmetic is done by
    the `fixed` crate), 2D vectors, and the xorshift64* generator `Rng`.
  - `input.rs`, `keyboard.rs` — per-tick player input and what a keyboard
    layout produces.
  - `systems.rs` — one fighter's tick (stick, jump, gravity, integration,
    collision) and its laws: fighters stay on the stage.
  - `world.rs`, `checksum.rs` — the world, spawning, `advance`, snapshots,
    and the FNV-1a desync checksum.
  - `session.rs` — the rollback request loop's decisions: save, load and
    advance requests, frame counters, routine refusals; laws on progress,
    restoring saved states, and deterministic re-simulation.
  - `netplay.rs` — the netplay machine cap and the scripted determinism input.
  - `slots.rs` — press-jump-to-join slot assignment and its laws.
  - `cli.rs`, `entropy.rs` — the demo's `--players` option and the byte
    stream that seeds network nonces on the web.
- `tests/` — tests of the library.
- `app/` — the demo around it: the macroquad window, keyboard polling,
  rendering, the GGRS session and SyncTest harness, and the wasm byte source.
