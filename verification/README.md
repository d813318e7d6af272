# murali

The discrete core of the Murali animation toolkit, verified with Verus.

- `src/` is the library. Every function there carries a contract, and the
  laws of the library are public proof functions beside the code they are
  about (`lemma_*`).
  - `stepwise`: story scripts (`ScriptBuilder`), their Kahn build order, the
    phases of the build timeline and the travelling signal.
  - `flow_chart`: reveal schedules, routing and layout decisions, the flow
    chart's data model and the highlighting of the flow path.
  - `network`: layer topology and the signal paths through it.
  - `table`, `matrix`: table grids and text order; matrix selections and
    continuity keys.
  - `path`, `surface`: subdivision schedules and contour rotation of paths;
    triangle index buffers of sampled surfaces.
  - `noise`: integer lattice hashes.
  - `animation`: easing kinds and the bookkeeping of path animations.
- `app/` evaluates the library's decisions on floating-point values
  (easing curves, reveal values, positions, path geometry).
- `tests/` exercises the library on concrete values.
