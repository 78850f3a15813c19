# axum_asgi_bridge

Embeds an axum router in a Python ASGI host (FastAPI, Starlette): Python
hands a request over as method, path, query string, headers and body; the
router answers with status, headers and body.

The library under `src/` is written in Verus and proved against its
contracts:

- `request`: the ASGI scope of a request, its validation into the parts
  of an HTTP request (method, target, headers, checked in that order), and
  the `http::Request` handed to the router, whose method, URI, header map
  and body are stated in terms of those parts.
- `response`: what a response is handed back as — status, the headers
  whose values are text, body or body chunks — and the ASGI framing.
- `bridge`: the bridge around the router, and the registry that records
  the route patterns its router serves; what routing, nesting and merging
  do to the router's routes is stated, and the registry's router routes
  exactly its recorded patterns. Patterns are reported ascending and once
  each, as JSON.
- `websocket`: the echo session, one decision per received event.
- `error`: the errors and the Python exception family each is raised as.
- `http_syntax`, `json`, `order`, `text`: what the `http` crate and
  `serde_json` are relied on for, the order of strings, and route text.
- `laws`: properties that span several functions.

`app/` holds the Python extension module (pyo3), the async dispatch through
the router, and the demo app.
