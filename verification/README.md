# dldsr

Dynamic Label-based Source Routing (DL-DSR) next to plain DSR, as a Verus
library with a thin program around it.

DSR carries a route as a list of 32-bit node identifiers; DL-DSR carries it
as a list of 8-bit labels that each node assigns to its neighbors through a
Hello / HelloReply exchange. Route discovery (RREQ / RREP), the route cache,
the duplicate-request cache and data forwarding are the same in both modes.

## Layout

- `src/` — the verified library.
  - `packet.rs`: protocol modes, packets, their encoded size, source-route header sizes.
  - `tables.rs`: the neighbor table (label assignment) and the label table.
  - `route.rs`: route entries, the route cache, the seen-request cache.
  - `topology.rs`, `config.rs`: topology, node configuration and its defaults.
  - `metrics.rs`: node counters and the deterministic chain benchmark model.
  - `protocol_spec.rs`: the protocol rules of one node as functions on mathematical values.
  - `protocol.rs`: the node state machine, proved to follow those rules.
  - `laws.rs`: properties that span operations (label uniqueness, lookups after
    inserts, duplicate detection, header savings, ...).
  - `text.rs`, `error.rs`, `clock.rs`: decimal text, errors, the wall clock.
- `tests/` — tests run against the compiled library.
- `app/` — the `dldsr` program: UDP daemon (Tokio), control-socket sender,
  benchmark command, configuration files (TOML), packet encoding (bincode),
  and the floating-point latency and energy estimates.
