# chocobase

The verified core of ChocoBase, an embedded database and backend platform: the
storage engine's pages and B+Tree, the catalog, the expression evaluator and query
operators, the PostgREST-style HTTP gateway's request handling and filters, JWT
sessions and PBKDF2 password hashes, object-storage access rules, realtime presence,
and edge-function dispatch. The functions of `src/` carry `requires` / `ensures` contracts
proved by Verus, except the few trusted wrappers around outside crates and the clock
(`src/crypto.rs`, `src/text.rs`, `src/time.rs`), whose contracts are believed.

## Layout

- `src/storage`, `src/btree` — 4 KiB pages, the pager, B+Tree nodes, search, insert
  with leaf and root splits, cursors; laws on search after insert.
- `src/catalog`, `src/types` — table and index descriptions, the in-memory catalog
  (stated over `Map` views), CREATE TABLE / CREATE INDEX checks (`catalog::ddl`),
  values and their SQL order.
- `src/plan`, `src/exec` — expression evaluation, filter, projection, sort, limit,
  aggregation and joins; `plan::select::run_select` and `exec::table::TableRows`
  (rows kept in memory in primary-key order: insert, UPDATE and delete with their
  checks); `exec::database::MemDatabase` (named tables with BEGIN / COMMIT / ROLLBACK,
  a rollback restoring rows and table list alike); row-level security filters
  (`plan::rls`); dump and restore planning (`backup`).
- `src/http` — request parsing, the gateway's connection step (`http_step`), REST
  routes and SQL builders, PostgREST filters, the gateway's own replies
  (`render_reply`), the storage API as a state machine (`storage_route_step`: its SQL,
  file actions and JSON answers), WebSocket frames, rate limits, presence.
- `src/auth` — JWT signing and checking (HMAC-SHA256), password hashes
  (PBKDF2-HMAC-SHA256), OAuth providers, execution contexts.
- `src/crypto.rs`, `src/text.rs`, `src/time.rs` — the trusted wrappers around
  `hmac`, `sha2`, `subtle`, `getrandom` and a few `std` functions, each with a doc
  comment saying what its contract claims.
- `app/` — the command-line program (`start` runs the gateway's step on TCP
  connections), the storage and restore drivers, and the JSON conversions; not verified.
