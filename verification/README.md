# electric_client

A client core for the Electric SQL shape-streaming protocol, verified with
Verus.

`src/` is the verified library:

- `json`, `assoc`, `text` — the JSON value model, association lists as maps,
  and character/decimal helpers.
- `types` — protocol types (`Message`, `ChangeMessage`, `ColumnInfo`, …) and
  their decoding from JSON.
- `offset` — log positions, their wire text, parsing and order.
- `parser` — Postgres text values to typed JSON values, array literals.
- `constants` — header and query parameter names.
- `fetch`, `http_date` — requests and responses, `Retry-After` (delta-seconds
  and HTTP-date) and the retry decisions of exponential backoff.
- `stream` — option validation, request URLs, and the state transition of the
  long-poll loop for each response.
- `shape` — the materialized rows of a shape and how message batches change
  them.

`app/` is the asynchronous shell around it: the `reqwest` fetcher, the retry
loop, the polling task with its broadcast channel, and the shared `Shape`
with subscriber callbacks.
