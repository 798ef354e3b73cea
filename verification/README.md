# wooshh

`wooshh` times a command like `time`, announces slow or failed runs, keeps a history of
runs, and reports on it (`stats`, `slowest`, `regressions`, `compare`).

- `src/` is the verified library (Verus): text handling (`text`), notification decisions
  and plans (`notify`), stable ordering (`ranking`), the run history (`history`), the
  reports drawn from it (`insights`, `regressions`; `reorder` proves that the regressions
  report does not depend on the order of the history) and what follows a timed run (`run`).
- `app/main.rs` is the command line around it: argument parsing, running processes,
  files, environment, JSON and TOML, and the floating-point figures of the reports.
- `tests/` runs the library on concrete cases.
