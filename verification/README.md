# KevinDB

KevinDB is a database for agent observability. Object storage holds the payloads of
traces in segments, Postgres holds metadata and indexes, and DataFusion queries the
segments.

`src/` is a Verus library: everything that KevinDB decides and computes, with contracts
that Verus proves.

- `text`, `sql`, `json`, `time`, `float`, `sorting`, `statement`: texts, SQL literals, JSON
  values, instants, floating-point bits, orders, and statements with their parameters.
- `record`, `otlp`, `metrics`, `search`: run events, OpenTelemetry spans, the typed metrics
  of a run, and what a search index is asked.
- `ingest`: records on their way into segments. `pending` buffers them per project and
  hour, `persist` cuts them into segments, `metadata` writes what the database has to know
  of a segment, `latest` says which event of a run the database then holds, `tree`,
  `thread`, `rollups` and `indexes` derive what queries read, and `compaction` rewrites
  small segments.
- `query`: `filter` parses and compiles the filter language, `planner` chooses segments,
  `scan` asks them, `distributed` shares a query out over workers, `index_search` reads
  search indexes by byte range, `aggregates` groups runs, `deletion` and `deleting` take
  runs out and `deleted_rows` says what that leaves, and the rest looks up, expires and
  cleans up.

Floating-point numbers do not occur in the library. Texts that are read as numbers come in
as a table of readings, numbers are kept as their bits, and sums and means are left to the
caller as the numbers that they are made of.

`app/` runs the library: it executes its statements against Postgres, reads and writes the
object store, scans segments with DataFusion, and does the arithmetic on floating-point
numbers. The file format of segments and the layout of search indexes are handed to it as
`Formats`.

`tests/` runs the library on concrete values.
