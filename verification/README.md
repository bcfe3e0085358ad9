# kintate_proxy

A filtering MITM proxy. The library (`src/`, verified with Verus) holds the
logic; `app/` is the program around it.

- `policy`: rules (priority, action, domain suffix, domain tag, path regex,
  client address), their ordering, domain tags and the decision for a request.
- `url`: host, path and second-level-domain extraction from request URLs.
- `log`: access sessions (one per device, target and outcome), sweeping idle
  sessions, the combined log, reading stored sessions.
- `handlers`: request handlers; the Google search handler keeps search terms.
- `proxy`: handling of one request, and the block page.
- `auth`: bearer tokens of API requests.
- `tui_app`: the management console as a state machine over key presses.
- `report`, `numbers`, `limit`, `text`: the log table, decimal integers,
  usage limits, string helpers.

`app/` stores rules, tags, limits, tokens and ended sessions in SQLite, serves
the HTTP API (axum), runs the proxy (http-mitm-proxy) and draws the console
(ratatui).
