# lib: a verified command-line argument parser

A command tree (`Command`) holds named options (`--long`, `-s`, clusters
such as `-abc`), positionals and subcommands. Each match runs its `Action`:
nothing, a layer that transforms the value being built and reads the
arguments that belong to it through a `Feed`, or a help or version page.

## Layout

- `src/types.rs`: the command tree, configuration, output and error types,
  with their builders.
- `src/machine.rs`: the parser as a state machine. `step` is the
  specification of one move; `run` says how a whole parse ends for the
  outcomes the layers gave; `Machine` is the executable parser, proved to
  follow `step`.
- `src/parse.rs`: `parse_bytes` and `parse_str`, which drive the machine,
  call the layers and write pages. Their contracts state the result and the
  output in terms of what the layers give back: a layer that specifies its
  behaviour through `Layer::gives` (as `NoLayer` does) fixes the outcome; one
  that does not may give back anything.
- `src/feed.rs`: what a layer reads.
- `src/page.rs`: the help and version pages, with word wrapping.
- `src/message.rs`: error messages.
- `src/laws.rs`: properties of the parser as a whole (layer-free parses are
  fixed by the command line, output is written only for pages, short
  clusters, positionals, required options, name splitting, wrap width,
  joining, texts parsed as their bytes).
- `app/`: the parser with real sinks (`core::fmt::Write`, `std::io::Write`,
  standard output, `String`) and function-pointer layers.

Everything under `src/` is verified with Verus; the tests under `tests/`
exercise the library on concrete command lines.
