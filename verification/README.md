# ingest_api

The rules of a telemetry ingest gateway, verified with Verus.

Apps POST batches of events with an API key; the key resolves to a tenant,
events are checked against the event standard, queued on a Valkey stream, and
drained into the tenant's ClickHouse `events` table. A read API and an admin
dashboard query those tables.

## Layout

- `src/` — the verified library:
  - `schema` — the event standard and `validate_event`;
  - `ingest` — request keys, body framing, batch verdicts;
  - `keys` — API key minting, hashing and the key-table SQL;
  - `auth`, `admin` — JWT signing and verification, admin identity, login
    decisions, tenant overview;
  - `query`, `read`, `time` — read-API query planning with bound parameters,
    keyset paging, tenant selection, time parameters;
  - `drain` — grouping a queued batch by tenant and the acknowledge/retry
    state machine;
  - `ch` — ClickHouse HTTP URLs;
  - `json`, `text` — JSON parsing into the values the rules read, and string
    utilities.
- `app/` — the service around it: HTTP handlers (actix-web), Valkey, the
  ClickHouse client, the key cache, writing JSON responses, and the clock.
- `tests/` — tests of the library on concrete values.
