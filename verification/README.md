# nous

The AI toolkit and API layer of the Nous node, with its logic verified by
Verus.

## Layout

- `src/` — the verified library.
  - `text` — UTF-8 byte lengths, white space and trimming, decimal text.
  - `chunking` — splitting documents into paragraph, sentence or
    fixed-size chunks.
  - `prompt` — `{{variable}}` templates and a library of them.
  - `conversation` — messages, conversations, token estimates and
    truncation to a token budget.
  - `pipeline` — token usage, finish reasons, pipelines, the echo backend.
  - `agent` — tool definitions.
  - `json` — JSON documents as plain data, read with `serde_json`.
  - `executor` — the state machine of an agent run (inference, tool call,
    ..., answer), tool-call parsing and the system prompt.
  - `http_backend` — the decisions of an OpenAI-compatible chat backend.
  - `search` — tokenization and the keyword index that ranking reads.
  - `rag` — retrieval modes and the bookkeeping of ingested documents.
  - `knowledge` — the plain parts of the knowledge base.
  - `api` — request and response types of the HTTP API, their checks,
    node health, paging, and the rate limiter.
  - `desktop` — what the desktop shell shows.
  - `error` — domain and API errors.
- `tests/` — tests of the library.
- `app/` — ordinary Rust around the library: agents (whose temperature is
  a float), asynchronous backends and tools, the loop that drives an agent
  run, embeddings, HNSW, BM25 ranking, retrieval, the SQLite knowledge
  base, and the serde forms of the library's types.
