# tracehell

TraceHell creates an instrumented copy of a Cargo workspace in which every
`?` expression prints the error it passes back to its caller, and runs
commands inside that copy in a terminal.

- `src/` is the library, verified with Verus: command-line parsing, trace
  paths, Unix path text (joining, components, file names, extensions), the
  choice of files to rewrite, the text a `?` expression becomes, the plan for
  copying the rest of the workspace, the terminal command line, and the
  command filter.
- `app/main.rs` is the program around it: the file system, the terminal,
  the settings file (TOML through `serde`), `cargo metadata`, directory
  walking, and the syntax-tree rewrite with `syn` and `prettyplease`.
- `tests/` runs the library on concrete inputs.
