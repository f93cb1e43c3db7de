# truncus

Session memory for an AI coding assistant. Each finished session is captured by a hook,
sent to a Cloudflare Worker, summarised, chunked and embedded into a vector index, and
recalled when the next session starts; the memory can also be searched from a command
line and through MCP tools.

## Layout

- `src/` — the library, verified with Verus: transcript reading, chunking, identifiers,
  the text sent for summarisation, which chunks need new embeddings, search-hit
  resolution, lesson parsing and identity, the recall text, the hook settings update, the
  API requests, the Worker's request checks and database statements, and the text views.
  Each public function states its result in its `ensures`; the laws of the library
  (chunk overlap and size, re-ingestion, batching, page counts, hook registration, ...)
  are public proof functions.
- `tests/` — tests of the library on concrete values.
- `app/` — the programs around it: the `truncus` command line, the `truncus-hook` session
  hook and the `truncus-mcp` server (one binary, chosen by the name it runs under), and
  the Worker's glue to D1, R2, Workers AI and Vectorize in `app/edge`.

The programs learn which assistant they serve from the environment: `TRUNCUS_HOST_NAME`
(its display name), `TRUNCUS_HOST_CLI` (its command, used to register the MCP server) and
`TRUNCUS_HOST_DIR` (its settings directory under the home directory).
