# bcsp_application

The shared application layer of the Rutgers Better Course Schedule Planner, written in Verus:
the loopback host's admission rules, the product's campus scope and publication state, the
prepared-serving publication tickets and rebuild queue, refresh scheduling and supervision
decisions, discovery target selection, product routes, filter-option dictionaries, and WAL
maintenance policy. Verus checks every function under `src/` against its contract. The few
functions whose results rest on the system clock or on a flag shared between threads (the
clock readings, the rebuild cancellation flag and the WAL maintenance signal) state only what
holds of every outcome, or nothing where nothing does; the WAL signal's pending bits are
modelled exactly by `WalMaintenancePending`.

## Layout

- `src/` — the verified library, one module per concern:
  - `text`, `option_text` — string specifications and the verified string helpers they need
    (splitting, trimming, case folding, whitespace collapsing, decimal text).
  - `host`, `admission` — the extension request/response types and the loopback admission
    policy for HTTP requests and WebSocket handshakes.
  - `target`, `query_targets`, `product_scope`, `product_targets`, `product_routes` — term and
    campus targets, their canonical order, the product scope, and route-level target checks.
  - `publication`, `rebuild_queue` — publication tickets that gate request admission, and the
    coalescing queue of the rebuild worker.
  - `refresh_registry`, `refresh_schedule`, `workflow`, `supervisor`, `supervisor_book`,
    `catalog_workflow`, `discovery_selection` — refresh bookkeeping, intervals and retries,
    workflow priorities, and the supervisor's dispatch decisions.
  - `filter_options`, `prepared_options`, `fts_query`, `open_evidence` — filter-option
    dictionaries and their listing order, prepared per-target dictionaries, full-text query
    text, and freshness of served Open evidence.
  - `wal_maintenance`, `wal_signal` — checkpoint escalation policy and its trigger flag.
  - `clock` — the monotonic clock, behind trusted wrappers of `std::time`.
- `tests/` — executable tests of the library.
- `app/` — ordinary Rust around the library: the axum loopback host, the prepared-serving
  registry with its locks and condition variables, the asynchronous rebuild worker, and
  serde/thiserror copies of library types.
