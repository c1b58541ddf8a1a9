# ether

A small web framework, verified with Verus.

- `src/` is the library. `routing::route` matches a request's method and
  path segments against a pattern of literal and typed segments;
  `param` reads typed parameters the way Rust's `FromStr` does;
  `routing::launcher` picks the first matching route of a table;
  `routing::mounter` mounts one launcher under a path prefix beside another;
  `routing::static_launcher` names the file a request asks for under a base
  directory; `request`, `response` and `runtime::server` hold requests,
  response bodies and the server's reply rule; `utils::apply` calls a
  handler with a tuple of parameters.
- `app/` runs the server on hyper and tokio: it reads requests, calls
  handlers, opens files and writes responses, as the library decides.
- `tests/` exercises the library, among others against `std`'s own parsing,
  splitting and path handling.
