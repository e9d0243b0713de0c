# red_engine2

The verified core of Red Engine 2, a small first-person game engine (two playable characters, a
launch menu, loose props that can be picked up and knocked about, and a documentation search for
the engine's command line). Every function in `src/` carries a `requires`/`ensures` contract that
Verus proves. The floating-point rigid-body simulation, the renderer and the window loop are not
part of this crate; `app/` holds the launcher's process I/O and the floating-point pieces that are
(search scoring, sound synthesis, the menu's cursor test).

## Layout

- `src/text.rs` — characters of strings, Unicode white space, trimming, ASCII case folding,
  UTF-8 lengths.
- `src/font.rs`, `src/raster.rs`, `src/menu.rs` — the launch menu's 2-D overlay: a 5x7 bitmap
  font, the exact model of source-over blending into an RGBA image, and the painted menu itself
  (`paint`, `try_paint`), plus the overlay's repaint cache.
- `src/player.rs` — the two characters and how the command line names them.
- `src/props.rs` — the prop catalogue, its names, and how each kind blocks the player.
- `src/physics.rs` — which objects are loose props, the ledger of static and promoted props
  (entity slots, the carried prop, per-tick publishing), and the search that decides what a
  disturbance promotes.
- `src/mesh_index.rs` — triangle index lists: flipped winding, surfaces of revolution, appending
  meshes.
- `src/launch.rs`, `src/controls.rs` — the command line, the menu's keyboard and launch flow,
  held keys, one-shot key effects and movement intent.
- `src/noise.rs` — the xorshift generator behind the sound effects' noise.
- `src/search.rs` — documentation search: markdown chunking, index terms, query expansion, term
  statistics, choosing diverse hits and printing them.
- `app/` — the launcher's `main`, the BM25 scoring and corpus reading for search, the sound
  synthesis, and the menu's cursor test (floating point and I/O).
- `tests/` — tests of the library, including the laws' scenarios on concrete values.

Verify with Verus on `src/lib.rs`; the tests are ordinary `cargo test` tests.
