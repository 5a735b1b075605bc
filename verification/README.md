# fcp_rust

Queries and refactorings of a Rust workspace, driven by its language server and spoken as
short operation strings (`def main @file:main.rs`, `rename Config Settings`).

- `src/` is the verified library: selector parsing and symbol filtering, symbol resolution,
  the verb registry and its reference card, the workspace model of diagnostics, text edits and
  workspace edits, the decisions of every query and mutation verb (which request to make,
  which code action to apply, how a derive attribute is added), the steps of resolving a name
  through the language server, the documents open in the server and their versions, and
  every answer text. Each
  function states its result in `requires`/`ensures`; the laws that relate several functions
  are public proof functions next to them (`law_*`).
- `app/` holds what talks to the outside: the language server connection, files on disk, JSON
  conversion and the tool parameter types. Where a verb waits on the server, the library
  names the next request and `app/` sends it and hands the answer back.
- `tests/` runs the library on concrete values.
