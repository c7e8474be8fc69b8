# ghostty_web

A local web terminal: a server that runs shells in PTYs and streams them over
a WebSocket, and a browser client that renders them with `ghostty-web`.

The library (`src/`) holds the logic, verified with Verus:

- `utf8_stream` – lossy, incremental UTF-8 decoding of PTY output; chunked
  decoding equals decoding the whole stream.
- `scrollback` – the capped replay buffer, trimmed at character boundaries.
- `session` – per-session state (attach / take-over / detach by key) and
  the registry of live sessions.
- `protocol` – the wire messages and what the server does with them.
- `active_process` – arguments and output handling of the `pgrep`/`ps`
  lookup of a shell's foreground process.
- `assets` – snippet asset paths and their guessed content types.
- `palette`, `session_commands` – the command palette: providers, filtering,
  selection, grouping, and the session and action entries.
- `status` – the connection status and its publish/subscribe bus.
- `resize` – ACK-based resizing with a single request in flight, requests
  spaced by at least `RESIZE_MIN_INTERVAL_MS`.
- `connection` – the WebSocket URL (with `encodeURIComponent`) and the
  close / reconnect decisions.
- `bridge` – mouse (SGR 1006), bracketed paste, focus, title and bell.
- `text`, `settings` – string helpers and client settings.

`app/` is the program around it: the actix-web server (`main.rs`,
`session.rs`, `active_process.rs`, `protocol.rs`) and the Yew client
(`client/`), which does the I/O and calls the library for every decision.
