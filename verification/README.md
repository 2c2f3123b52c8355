# deepseek-cursor-proxy-rust

A local OpenAI-compatible proxy for DeepSeek models, with its request and
response logic written in Verus and proved against its contracts.

## Layout

- `src/` — the verified library.
  - `json`, `number`, `text`, `paths`, `pattern` — JSON documents as plain
    values, integer numbers, text and path operations, and regular
    expressions through the `regex` crate.
  - `protocol` — normalizing client requests (`normalize`), preparing the
    upstream request (`transform`), rewriting complete responses
    (`response_rewrite`), folding reasoning into content (`folding`), and the
    laws that hold across them (`laws`).
  - `reasoning` — cache keys from SHA-256 digests (`keys`), the
    `ReasoningStore` contract with an in-memory store (`store`), and the laws of
    keeping and looking up reasoning (`laws`).
  - `http` — streaming: chunk accumulation, reasoning display and line
    rewriting (`sse`), the decisions of the HTTP handlers (`handlers`), routes,
    the upstream endpoint, and the streaming laws (`laws`).
  - `config`, `cli`, `cursor`, `trace`, `tunnel`, `error` — settings and their
    command-line overrides, Cursor's state, trace files, the quick tunnel's URL.
- `app/` — the executable: clap, YAML settings, the SQLite store, the axum
  server, reqwest, `cloudflared` and file I/O around the library.
- `tests/` — tests of the library on concrete values.
