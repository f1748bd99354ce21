# cn_codex_bridge

A local bridge that lets a client speaking the OpenAI *Responses* API talk to
providers that only offer the *Chat Completions* API. The library converts
request bodies, whole replies and streamed replies between the two shapes; the
program in `app/` runs the HTTP server around it.

## Layout

- `src/` — the library, verified with Verus.
  - `json.rs` — the JSON values the converters work on, their model `JsonV`,
    and proved accessors and builders.
  - `text.rs` — character-level string helpers (comparison, trimming,
    replacement, digits), each proved against a spec function.
  - `config.rs` — the bridge configuration and the upstream endpoint URLs.
  - `converter.rs` — Responses request → Chat request, Chat reply →
    Responses reply (reasoning content becomes a `reasoning` item), each
    proved equal to a spec function; round-trip laws for function calls and
    assistant text.
  - `stream.rs` — the streaming state machine (`StreamConverter`), proved
    against a step function over its model (reasoning content becomes
    reasoning-text delta events), with laws over runs of chunks (and over
    successive calls): one `response.created` per converter, identity,
    well-formedness, the text item opened once, interleaved argument
    accumulation and tool-call completion.
  - `server.rs` — event-stream framing and reading, buffer cutting, the
    step that feeds received bytes (decoded as UTF-8) to the stream loop,
    and the handler's decisions (model, streaming, headers, error bodies).
- `tests/` — tests of the library on concrete values.
- `app/` — the executable: command line, HTTP server and client, the
  conversion between parsed JSON and the library's values, and the copies of
  library types that carry serde and thiserror derives.
