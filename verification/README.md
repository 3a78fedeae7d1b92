# velr-cli

The command-line shell for the Velr embedded graph database, split into a
verified library and a thin program around it.

- `src/` is the library, verified with Verus:
  - `args.rs`: reading the command line into a `Config` (action, query
    source, output format, database path, flags), with every usage error;
  - `lexer.rs`: scanning openCypher text for the `;` that ends a statement,
    skipping comments, strings and escaped identifiers; splitting scripts;
    deciding when the REPL buffer is complete;
  - `repl.rs`: the REPL's `:` commands, `~` paths, the history file's
    location and the assembly of a query's output;
  - `listing.rs`: what `:ls` prints, sorted case-insensitively;
  - `table.rs`, `escape.rs`: rendering result tables as styled or plain
    tables, TSV, CSV and NDJSON;
  - `roundtrip.rs`: readers for TSV, CSV and JSON strings, and proofs that
    they give back what was written;
  - `text.rs`: character helpers (Unicode whitespace, trimming).
- `app/main.rs` is the `velr` program: terminal and file I/O, the line
  editor (`reedline`) and the database driver (`velr`).
- `tests/` exercises the library on concrete values.
