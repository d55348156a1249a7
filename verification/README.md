# dch_core

The verified core of the data connect hub services, written in Verus.

- `src/` is the library. Every function there carries a contract that Verus
  proves: format detection from paths, format names and `Content-Type`
  values; JSON schema inference, row extraction and column building; the
  trace exporter configuration; the decisions of the gRPC and REST request
  tracing and metrics; the sampling and chunk bookkeeping of the streaming
  readers; and the credential, URL and response rules of the URI connector.
  `src/laws.rs` states properties that span several functions.
- The calls into outside crates (`mime`, `url`, `chrono`, and a few std
  functions) stand behind small trusted wrappers whose contracts name what
  the call returns.
- `tests/` runs the library on concrete values.
- `app/` is ordinary Rust around the library: tracing and metrics set-up,
  the actix-web and tonic middleware, the Arrow and `serde_json` side of the
  JSON reader, the stream plumbing of the format readers, and the HTTP
  client of the URI connector.
