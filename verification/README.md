# lirays_scada

The core of a SCADA server, verified with Verus: the real-time namespace of folders and
typed variables, the rules of its commands and events, the canvas views of the web UI,
and the authentication decisions of the HTTP API.

## Layout

- `src/` — the verified library. Every function carries a `requires`/`ensures`
  contract proved by Verus; the laws of the library are public proof functions.
  - `utils`, `path_laws` — path normalization, ancestors, storage keys and their laws.
  - `parser`, `bulk`, `schema` — name ranges (`name[1:10]`), bulk schemas and their
    JSON form.
  - `variable`, `events`, `command_events`, `commands`, `subscriptions` — what each
    command reads and writes, the events it announces, and the response it gets.
  - `views`, `view_list`, `view_laws`, `view_manager` — the views table with exactly one entry point,
    listing with search, sorting and paging.
  - `auth`, `sessions`, `tokens`, `passwords`, `patoken`, `web`, `http_types` — HTTP
    answers, session keys, HS256-signed session tokens, Argon2-hashed secrets, personal
    access tokens, static file lookup.
  - `client`, `service` — the protocol client's helpers and the desktop companion's
    service control.
  - `fresh` — random identifiers and the clock.
- `tests/` — tests run against the compiled library.
- `app/` — the server program around the library: the HTTP API (views, setup, login,
  sessions, the websocket endpoint, static files) with axum, and
  the two-port real-time server over websockets; namespace, views and accounts are kept
  in sled.
