# byteback

A terminal dashboard that reclaims disk space by sweeping regenerable build,
dependency and cache directories (`node_modules`, `.next`, `target`, ...).

## Layout

- `src/` is the verified library, written in Verus:
  - `target` — target names, the built-in defaults, the scan lookup;
  - `config` — the configuration rules (visible names, adding, removing,
    remembering the selection) and their laws;
  - `report` and `report_laws` — grouping a scan into categories sorted
    largest first, category and selection totals, and the shape every report
    keeps;
  - `delete` — which directories may be removed, the bytes a run frees, and
    the account of a deletion run;
  - `app` — the dashboard as a state machine from state and event to next
    state and action, with the invariant every transition keeps;
  - `scan`, `view`, `cli`, `seqs` — scan events and matching, text and
    geometry for drawing, command-line flags, shared sequence functions.
- `app/` is the program around it: argument parsing (clap), the TOML
  configuration file (serde, toml, directories), the parallel directory walk
  (jwalk, rayon), the removal (trash, std::fs), and the terminal (ratatui,
  crossterm, tui-input).
- `tests/` exercises the library on concrete values.
