# kittens_code

The core of a coding agent, written in Verus: the session engine that turns
client operations and effect completions into batches of log records,
events and effects; the append-only record log and its recovery scan; the
line-oriented query language and its executor; the context window and its
capped excerpts; and the reactor declarations: their assembly and
validation (source order, `before`/`last` relations, cycles, drain bounds,
phase positions) and the service window that bounds how many items a
selected source handles before the reactor polls again.

Every function under `src/` states its behaviour in `requires`/`ensures`
and is proved by Verus. Calls into outside crates (JSON parsing with
`serde_json`, HTTP dates with `httpdate`) sit behind small trusted items
whose doc comments say what is assumed of them.

Layout:

- `src/` — the verified library. `engine.rs` is the session state machine;
  `record/` the log format, scan and laws; `rlm/` the query language
  (grammar, lowering, executor); `reactor/` declaration validation;
  `driver/` the pure parts of the runtime driver (request bodies, SSE and
  stream decoding, tool argument handling, appender planning, how an action
  batch is discharged).
- `tests/` — ordinary Rust tests against the compiled library.
- `app/` — the program around the library: command line, file and network
  I/O, the async loop, and serde copies of the library's wire types.
