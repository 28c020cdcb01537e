# Demiourgos

An OpenSCAD design assistant served over the Model Context Protocol: it
renders models, checks that they compile, measures the meshes they export,
and learns a printer's real tolerances from recorded print outcomes.

## Layout

- `src/` — the verified library (Verus). Every function carries a contract
  over a mathematical model of its inputs and result, and the properties that
  tie functions together are proof functions named `lemma_*`.
  - `text` — character-level text handling (Unicode whitespace, ASCII case,
    trimming, lines, words, unsigned numbers, search and replacement, the
    `str` ordering) with exact models.
  - `scad` — named camera views, OpenSCAD command lines, parsing of
    OpenSCAD's diagnostics and `ECHO` output, version banners.
  - `server` — workspace naming rules, tool-parameter parsing, the bitmap
    caption font, RGBA canvases, contact sheets and difference images, the
    offline viewer page, slicer footers and durations, the checks on a
    recorded outcome's arguments, configuration.
  - `tolerance` — fit classes, verdicts, outcome kinds, material families,
    profile identifiers.
  - `mesh` — mesh topology (watertightness).
- `app/` — the MCP server itself: process spawning with timeouts, file I/O,
  JSON, and everything computed in floating point (mesh geometry, Bayesian
  calibration, strength estimates, coupon geometry).
- `tests/` — executable tests of the library.

The viewer's Three.js sources and the SCAD helper library are read at run
time from the directory named by `DEMIOURGOS_ASSETS` (default `./assets`).
