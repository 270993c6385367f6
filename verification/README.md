# openusage-cli

A daemon and command line program that asks plugins, written in JavaScript, how much of a
service's limits is used up, and tells the answers over HTTP or on standard output.

- `src/` is the library, written in Verus: the rules of the program stand there, each with a
  contract that is proved. Properties that span several functions are proof functions whose
  names begin with `law_`.
- `app/` is ordinary Rust around it: the command line, files, the network, the script engine,
  the walk over a script's syntax tree that puts patches in, and the file watcher. It asks
  the library what to do, does it, and hands back what came of it.
- `tests/` runs the library, together with the crates that it calls.

The few contracts that are believed rather than proved are those of functions of other crates.
They stand in `src/outside.rs`, `src/plugin_engine/script_outline.rs` and `src/text.rs`, each
with a note on what is claimed.
