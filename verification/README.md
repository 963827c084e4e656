# checkle

`checkle` runs project checks and prints compact, agent-friendly failure
output, while the full output of each check stays in a log file.

The library under `src/` is verified with Verus:

- `summary` reads check output (Cargo JSON diagnostics, nextest JSON events
  or human output, rustfmt diffs, cargo-deny and cargo-machete findings) into
  a compact summary, and renders it;
- `report` holds the report limits, the log file of a check and its report;
- `suite` resolves check names against the built-in checks and groups and the
  project configuration, and renders a suite's report and progress display;
- `staged`, `git` and `precommit` hold the decisions of the staged-file
  formatter and the pre-commit hook;
- `text` and `json` are the text model and the reading of JSON events.

Each public function states its result in its `ensures` clause, over the
spec functions beside it; the `law_*` proof functions state properties that
span several calls.

`app/` is the command line: it runs processes and git, reads and writes
files, and runs checks in parallel threads, and hands the library plain
values.
