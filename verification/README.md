# http_proxy

A small forwarding HTTP proxy; its request handling is written with proofs of what it does.

- `src/text.rs` — the request-line scanner: `substr` (the value behind a field name, up to a
  terminator or the end of the line), text before the first NUL, trimming and parsing of
  numeric fields, decimal formatting, and the laws that tie them together.
- `src/line.rs` — `LineReader`, which assembles one request line from one-byte reads.
- `src/relay.rs` — `Relay`, the decisions of the copy loops between client and server.
- `src/query.rs` — the queries and answers that the proxies send.
- `src/http.rs` — the forwarding proxy: its `Header`, `check_headers`, the request reader
  and routing.
- `src/proxy.rs` — the same proxy organised around a `Request`, with CONNECT.
- `src/proxyssl.rs` — the CONNECT tunnel: method and header readers, the answer, `Tunnel`.
- `app/` — sockets, threads and printing; it runs the state machines of `src/`.
