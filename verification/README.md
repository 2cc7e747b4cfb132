# homeassist

A command-line client for Home Assistant, built around a library whose
logic is verified with Verus.

- `src/` is the verified library: the JSON and YAML document models, the
  three output modes and their renderers, calendar arithmetic, credential
  resolution, request addresses, the WebSocket protocol, and every command's
  decisions and reports (entity filters, triage, logbook and log lines,
  batch files, deployment verification, the YAML configuration checks).
  Each public function states its result over a mathematical model
  (`Seq`, `JsonV`, `YamlV`), and the properties that span several functions
  are proved as public proof functions next to the code they speak of.
- `app/` is the program: argument parsing, the HTTP and WebSocket
  connections, files, the terminal, and the two number formats that work in
  floating point. It hands the library plain values and prints what the
  library renders.
- `tests/` runs the library on concrete values.

The library reaches two outside crates through small trusted wrappers
whose contracts are stated in their doc comments: `regex` (compiling,
matching, capture groups, replacement, escaping) and `percent-encoding`
(path segments); a few more wrappers give contracts to the standard
library's clock, lower-casing, path-name and `String::push` functions.

JSON text is written by the library's own printer over its `Json` model,
character for character as `serde_json` writes a `Value` (two-space
indentation, the same string escapes); the model keeps a float as the text
JSON gives it, so no floating-point value passes through `src/`, and the
printer's form is proved: escaping is one to one, compact text is one
line, and a model of a JSON reader (`src/json_read.rs`, by the JSON
grammar) reads both printed forms back as the document printed.
