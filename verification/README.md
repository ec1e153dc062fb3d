# dfm_scanner

Reads Delphi form files (DFM, text form) into a component tree, fills in the
default properties of each component, and maps custom component types to the
VCL base types they derive from, using the type databases of CodeInsight.

The library in `src/` is verified with Verus:

- `text` — white space, trimming, lines, splitting, ASCII case folding.
- `number` — which texts are integers (`i64`) and which are floating-point
  numbers, as Rust reads them.
- `map` — a string-keyed map that keeps insertion order, with a hash index.
- `parser` — the DFM grammar: headers, properties, values, blocks, nesting;
  the one-line-per-component summary of a tree.
- `normalizer` — default properties and anchored sides.
- `aliases` — type ancestry resolution, the alias list, INI settings.

`app/` is the command-line program: argument handling, files, environment,
the SQLite databases, JSON output, and the anchor offsets (floating point).
