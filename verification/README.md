# thomas

A small entity-component-system game engine that draws in the terminal, written as a
Verus library: the engine's rules are executable Rust with contracts that Verus proves.

## Layout

- `src/` — the verified library.
  - `data/` — coordinates, dimensions, layers, priorities, colours and the `Matrix` grid.
  - `entity.rs`, `components.rs`, `world_model.rs`, `entity_manager.rs` — entities, their
    components, and the store that adds, removes and finds them, with its model as maps.
  - `query.rs` — queries over the stored components and what they match.
  - `system.rs`, `game.rs` — systems, events, the command queue and the game's state machine.
  - `input.rs`, `time.rs`, `engine_stats.rs` — input, timing and frame statistics.
  - `renderer.rs`, `ui_renderer.rs`, `systems.rs` — the terminal renderer, text UI,
    collision and frame-rate systems; `builtin_systems.rs` lays out the built-in system groups.
  - `behaviours.rs`, `screen_renderer.rs` — behaviours kept by name, and the renderer that
    draws a frame as lines of text.
- `tests/` — tests of the library.
- `app/` — the terminal and keyboard, the main loop, systems built from closures, and
  everything that holds floating-point values.
