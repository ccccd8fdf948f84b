# vllm_bench

Verified request logic of a benchmark client and of its mock LLM server.

- `src/escape.rs` — escaping text for a JSON string body, with a decoder
  that states what an escaped body stands for and the proof that escaping
  round-trips.
- `src/json.rs` — the JSON values the logic builds, their model, and
  object member insertion and merging with their laws.
- `src/text.rs` — whitespace, word counting, decimal numerals, and the
  placeholder words of the mock detokenizer.
- `src/pooling.rs` — the request bodies of the embedding, pooling and rerank
  backends, and what a reply does to a request's outcome.
- `src/mock.rs` — the mock server's model list, tokenizer, detokenizer and
  the step-by-step token streams of its completion endpoints.
- `app/` — the HTTP server and client around the library (axum, tokio,
  reqwest, clap, serde, uuid for the random request ids).
