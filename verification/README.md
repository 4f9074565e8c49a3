# rinha_api

A people-registry HTTP API (create, look up by id, search, count). The
library in `src/` holds everything that decides something, with contracts
proved by Verus:

- `date` — `is_date_valid`, the `YYYY-MM-DD` birth-date check;
- `query` — `url_decode` and `url_params`, with laws on joined queries;
- `person` — registration requests, their validation, the person JSON;
- `ids` — identifiers as 128-bit values, generated, printed and parsed by
  the `uuid` crate;
- `json` — string and integer encoding by `serde_json`;
- `api` — the route table and the reply of every route;
- `minimal` — the routes of a small demonstration server;
- `config` — settings from the environment and their defaults.

`app/` is the server itself: hyper on tokio, a deadpool PostgreSQL pool,
and the conversion of requests and replies.
