# plinth

A chunked, columnar, in-memory storage engine on Apache Arrow, verified with Verus.

Values are written to columns. A column appends into a mutable chunk backed by an
Arrow builder; when the chunk reaches `CHUNK_SIZE` values it is frozen into an
immutable Arrow array, stamped with a version identifier, and a fresh chunk takes
its place. Frozen chunks are read in vectors of `VECTOR_SIZE` rows. Tables group
named, typed columns and accept rows one at a time, as runs of values per column,
or as contiguous slices.

## Layout

- `src/` — the verified library.
  - `units` — sizes, offsets and version identifiers.
  - `arrow_store` — the trusted boundary to Arrow: type-erased builders and arrays,
    modelled as sequences of cells.
  - `chunk` — mutable chunks, chunk writers and frozen chunks.
  - `column` — a column of frozen chunks and one mutable tail.
  - `vector` — reading a frozen chunk in vectors.
  - `row_state` — per-row metadata in fixed-size chunks.
  - `table`, `schema` — tables, their builder and the insertion visitors.
  - `mvcc` — stable versions, transactions and commits.
  - `byte_chunk` — fixed-width elements stored as raw bytes.
- `tests/` — tests against the compiled library.
- `app/` — benchmarks and profiling runs (criterion, timing against raw Arrow).
