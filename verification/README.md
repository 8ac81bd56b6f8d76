# Forge

Forge turns a `board.toml` description of an embedded board into
dependency-ordered C initialization code. This crate is the verified core:
every function in `src/` carries a Verus contract, and the library's laws are
proof functions checked by Verus.

## Layout

- `src/config/` — the raw document, validation into a `Board` (every problem
  reported, in document order), and the proof that a validated board claims
  each pin and each label once.
- `src/graph/` — the dependency graph: building it from a board, Kahn's
  topological order, depths and layers, cycle detection by alphabetical
  depth-first search, and DOT export.
- `src/codegen/`, `src/backend/` — the exact text of `init.h`, `init.c`,
  `handlers.h`, `handlers.c` and `main.c`, and the backends: the C backend
  emits those five files; the Zephyr backend emits a devicetree overlay
  (`<board>.overlay`) and a `prj.conf` that enables only the subsystems the
  board uses.
- `src/analysis/` — I2C bus utilization, SPI prescaler accuracy and interrupt
  density, computed exactly over integers; the summary and the report.
- `src/lint/` — the design review and the lint verdict.
- `src/frontend/ai/` — prompts, fence stripping, and the verification that
  every synthesized candidate goes through.
- `src/settings.rs` — settings resolution and redaction.
- `app/` — the `forge` command line: argument parsing, files, the network,
  and the serde forms of the library's types.
