# sentinel

The verified core of Sentinel, which fuzzes Soroban contracts with
`cargo fuzz`, checks built-in invariants with Z3, and serves the results over
a REST API.

- `src/` is the library, verified with Verus: the configuration schema, runs
  and findings, the scanning of libFuzzer output (lines, crash reports,
  reproducer, coverage and speed figures), the fuzz command line, seed corpora
  and their file names, the turning of solver verdicts into findings, the
  decisions of the run pipeline (what to do when a step fails, how findings
  are counted, the run's final status), and the checks made on a run request.
  `text.rs` holds the string operations these rest on, each stated over
  `Seq<char>`.
- `app/` is the server around it: HTTP routes, SQLite, the `cargo fuzz`
  subprocess, the Z3 checks, the TOML parser, and floating-point coverage
  figures.
- `tests/` runs the library on concrete inputs.
