# omni_runs

The runs service of an agent backend, as a verified library and a thin service
around it.

- `src/text.rs`: lines (as `str::lines` splits them), joining, trimming of
  Unicode white space.
- `src/log_tail.rs`: the tail of a run's log: its last lines, joined with
  newlines, cut to its last bytes of UTF-8.
- `src/json.rs`: JSON values as the normalisation reads them; parsing and
  quoting go through `serde_json`.
- `src/display.rs`: the display form of a log tail: the JSON Lines an agent
  wrote become the events the chat view reads.
- `src/run.rs`: runs and their display form; the service's error.
- `src/lookup.rs`: the decisions of looking up one run or all runs of a task:
  which query to ask next, and what to answer.
- `app/lib.rs`: reading log files, the SQLite queries, and the loop that feeds
  the store's replies to a lookup.
