# recuerdos_ai

A long-term memory for coding agents: what a user's agents learn is saved,
recalled by meaning, by keyword and by the entities it mentions, revised when
it is contradicted, and exported. Everything belongs to one user, and no
request reaches another's; only moving a store to another embedding model runs
over all of them.

The library under `src/` is written in Verus. Its functions take plain values
and return plain values, and their contracts say which. Where a use case needs
the outside world (an embedding, a row, a reply over HTTP) the library says
what to ask for next and what to do with the answer. `app/` asks.

## Layout

- `src/text.rs`, `src/order.rs`, `src/json.rs`: text as sequences of
  characters, stable sorting, JSON documents.
- `src/shared/`: errors, identifiers, points in time.
- `src/memories/domain/`: memories, categories, entity keys, the entity graph's
  vocabulary, queries, and the ranking of what was found.
- `src/memories/application/`: the use cases, as steps.
- `src/memories/infrastructure/`: the rows and statements of the store, the
  graph over its rows, the vector and keyword indexes, reindexing, and the HTTP
  and MCP surfaces.
- `src/providers/`, `src/understanding/`, `src/bootstrap/`: requests to and
  replies from model providers, structured replies, retries, settings.
- `app/`: the ports, SQLite, tantivy, axum, rmcp, reqwest and fastembed, and the
  floating-point part of scoring.
- `tests/`: the library against concrete values, and against the real crates.

Numbers with a fraction are held in the library by their bit patterns.
