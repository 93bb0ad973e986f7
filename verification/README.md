# httpx

A small HTTP router, verified with Verus.

- `src/text.rs` — the character-level model (splitting, lines, words,
  trimming, searching) and its implementation on `Vec<char>`.
- `src/table.rs` — text-keyed tables with distinct keys kept in insertion
  order (`Table<V>`, `StrMap`).
- `src/request.rs` — `HttpRequest`: parsing request text, query and form
  parameters, path parameters.
- `src/response.rs` — `StatusCode`, `HttpResponse` and the text it is sent as.
- `src/router.rs` — `Router<H>`: static and `:name` routes, route lookup,
  and the decision of what a connection is answered.
- `src/urlencoding.rs` — decoding of URL-encoded form values.
- `app/main.rs` — the demo server: TCP, one task per connection, handlers.
