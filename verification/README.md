# copperleaf

A verified library for the Copperleaf parts tool and its KiCad backends,
written in Verus.

- `src/` — the library. `kicad` (KiCad 10 backend: S-expression reader and
  writer with its parse/print round trip, symbol layout, symbol library
  reading with `extends` resolution and flattening, symbol library emitter,
  netlist, PCB layer table and carried-over footprints, library tables, 3D
  model files), `kicad6` (KiCad 6 netlist), `analysis` (electrical rule
  checks), `cli` (the command-line tool's decisions: sources, identifiers,
  file names, kind map, vendor crates, model replies), `text`, `tree` and
  `diagnostic` (shared models).
- `tests/` — tests of the library.
- `app/` — the command-line program: argument parsing, files, processes and
  TOML around the library.
