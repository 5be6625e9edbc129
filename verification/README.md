# rusdu — a disk usage analyzer with a verified core

rusdu scans a directory tree, keeps it in a flat arena of nodes, and lets
the user browse, sort, filter, delete and export it (as JSON, or in a
binary format of compressed CBOR blocks). The logic is written in Verus and proved against
its contracts; the terminal front end and the file-system walk are plain
Rust around it.

## Layout

- `src/` — the verified library.
  - `tree/` — the node arena (`arena.rs`: adding, deleting and grafting
    subtrees, depth-first walks), entry flags and nodes (`node.rs`), and the
    aggregate statistics (`stats.rs`), with hard links counted once.
  - `scan/` — scan options, exclusion rules (globs, kernel file systems,
    `CACHEDIR.TAG`), and how one entry met by a scan is recorded.
  - `export/` — the JSON export and import (`json_*.rs`), the binary format
    (`cbor*.rs`, `bin_*.rs`), zstd framing (`compress.rs`), and the
    round-trip law of the JSON format (`roundtrip.rs`).
  - `ui/` — the browser state machine: key and mouse handling, listing and
    sort order, filters, fuzzy search, extension statistics, custom
    actions.
  - `cli.rs`, `lexer.rs`, `config.rs` — command-line options, the
    tokenizer they are read with, and configuration files.
- `tests/` — tests run against the compiled library.
- `app/` — the program: argument and file I/O, the parallel directory walk,
  the ratatui front end, the file watcher and the shell commands.

Outside crates that only compute (serde_json, ciborium, zstd, globset,
natord, lexopt) are called from `src/` through small trusted wrappers. Each
wrapper's doc comment says what its contract claims of the outside code:
a name for the result and the short facts their source shows. The lexopt
parser is held in a lexer that records the arguments it was made from and
the calls made on it, so that each token is named as a function of those.
