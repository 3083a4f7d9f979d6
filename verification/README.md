# terminarium

A small sea that grows in a terminal pane: an incremental aquarium game whose
economy, input handling, save format, command line, scenario harness and
picture arithmetic are a library verified with Verus, wrapped by a thin
terminal front end.

## Layout

- `src/` — the verified library.
  - `engine/` — the deterministic economy: parameters, the state machine
    (`tick`, `advance`, `buy`, `collect`, reef placement) and its laws
    (`engine/laws.rs`: conservation, composition of time, housing, prices
    and the shipped price curve, the states any sequence of play reaches,
    and ticks blind to where and in which order reefs were placed).
  - `app.rs` — the application state machine: layers, keys, elapsed time,
    frames.
  - `save.rs` — the line-based save text, its exact parser and serializer,
    the round-trip law, and offline settlement.
  - `cli.rs` — command-line parsing.
  - `harness.rs` — the scenario language and the runner that drives the app
    through it.
  - `hud.rs` — the text of the heads-up display.
  - `scene.rs`, `content/` — where every sprite sits, as a pure function of
    the state, the pane and the frame; the reef kinds and the swimmers they
    house.
  - `scan.rs`, `text.rs` — the character and decimal scanning the parsers
    share.
- `tests/` — behaviour tests of the library.
- `app/` — the terminal program: the event loop, file and clock access, and
  drawing with ratatui and crossterm.
