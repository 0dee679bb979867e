# Momotaro

A local-first research workbench: Markdown notes are normalized, keyed,
chunked and hashed into a SQLite store, indexed with a CJK-aware BM25 index,
and searched with citations that point back into the source bytes.

## Layout

- `src/` — the verified core, written in Verus:
  - `contracts` — source keys, record types, engine-version windows, the token
    estimator;
  - `ingest` — normalization, hashing, titles, vault names and keys,
    workspace-relative paths, and the Markdown chunker;
  - `retrieve` — query escaping and normalization, the CJK bigram tokenizer,
    and the indexed form of a chunk;
  - `store` — the migration chain, the write-refusal predicate, health and
    stats projections;
  - `run` — the `doctor` state machine, terminal rendering, and the decisions
    inside indexing, rebuilding and searching;
  - `text` — character-level helpers shared by the rest.
- `tests/` — tests of the library through its public interface.
- `app/` — the command-line program: configuration, the filesystem, SQLite,
  tantivy, and JSON output, driving the library's decisions.
