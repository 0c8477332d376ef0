# sioc

A Socket.IO v4 / Engine.IO v4 client protocol library whose logic is
specified and proved with Verus.

## Layout

- `src/` — the verified library.
  - `num` — decimal digits: recognising, parsing and rendering integers.
  - `json` — JSON texts as `serde_json` reads and writes them; the only
    place where `serde_json` and `heck` are called.
  - `engine` — Engine.IO: the packet codec and handshake, polling payload
    framing (base64 binary frames), the session step function, and the
    transport URL and probe decisions.
  - `socket` — Socket.IO: the packet codec over byte strings, and the
    namespace router (`Manager`): buffering before the server confirms a
    namespace, ack ID assignment and routing, binary attachment reassembly.
  - `proto` — the byte-level packet layer: UTF-8 namespaces, CONNECT and
    CONNECT_ERROR payloads read as JSON objects, outbound commands and
    their size hints.
  - `event` — event naming and the `["name", field, ...]` wire format.
- `tests/` — tests run against the compiled library.
- `app/` — the asynchronous runtime: tasks, channels, the heartbeat timer,
  HTTP long-polling and WebSocket I/O.  It performs what the library's step
  functions decide.

Each public function of `src/` states its result in its `ensures`; the
properties that relate several functions (codec round trips, size hints
that bound encodings, the router's buffering, acknowledgement and
reassembly behaviour) are public proof functions next to the code they
speak of.
