# orion_lib

The decision logic of the Orion L7 proxy library, written in Verus: every
function in `src/` carries a `requires`/`ensures` contract that Verus proves,
and properties that span several calls or functions are stated either in
those `ensures` or as public `proof fn`s whose names begin with `law_`.

## Layout

- `src/` — the verified library.
  - Filters and per-request state: `filter_state`, `set_filter_state`,
    `format_string`, `filter_decision`, `route_filters`.
  - Headers and request/response heads: `headers`, `http_parts`, `text`,
    `mutation`.
  - Routing and connection management: `hcm` (virtual hosts, transaction
    phases, status tracing), `routing` (request/response filter runs,
    reroutes, access-log steps), `upstream` (URI rewrites, upgrades),
    `listener` (filter chain selection), `lds` and `drain` (listener
    updates and draining).
  - Clusters: `clusters` (the registry and routing contexts),
    `load_assignment`, `original_dst` (on-demand endpoints kept in an
    `lru_time_cache::LruCache`), `override_host`, `endpoint_order`,
    `retry_policy`.
  - External processing: `ext_proc`, `processing`, `worker` (the
    per-message state machines and the worker's plan for each event) and
    `ag_ext_proc`.
  - `keyed` and `clock`: shared lemmas on keyed vectors, and the clock.
- `tests/` — tests of the library on concrete values.
- `app/` — the parts that need the runtime: conversions between the `http`
  crate's types and the library's, and the timers and waits on `tokio`.

Calls into outside crates (`http`, `rand`, `lru_time_cache`, and parts of
`std`) go through small `#[verifier::external_body]` functions whose
contracts state what those crates document; each one is commented with the
function it calls and what is claimed of it.
