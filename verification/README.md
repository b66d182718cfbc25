# audiacore

AudiaCore's reusable foundation as a Verus-verified library: stable error
codes and their categories, identifiers, sensitive values, mapping-only
templates, configured error catalogues and presentation, desired-versus-observed
reconciliation, layered TOML configuration with input provenance, file
authorities and native path resolution, event streams with retention and
cursor paging, workflow transitions, deadlines and timer sets, and managed
whole-file configuration.

Layout:

- `src/` — the verified library, one module per capability. Each public
  function carries a `requires`/`ensures` contract over spec models; public
  `proof fn`s state the laws that relate several operations.
- `tests/` — executable tests of the library.
- `app/` — the effectful edge that cannot be verified: the `cap_std` native
  file host with atomic writes, an in-memory file host, and the traced
  managed-configuration entry point.

Outside crates are reached from `src/` only through a few trusted items, each
documented where it is declared: YAML catalogue parsing (`yaml_serde`), TOML
parsing and deserialization (`toml`, `serde`), the compact JSON text of
template values (`serde_json`), and `String::push`.

Three maps are held as vectors kept in strictly ascending key order, an
invariant each type states and every operation keeps: the error catalogue's
entries (keyed by code text), the timer set (keyed by timer identifier) and the
template context (keyed by variable name). vstd specifies `BTreeMap` and
`HashMap`, but proves nothing of them with `String` keys or keys of the
library's own types, so the ordered vector is what lets lookups, inserts and
overlays carry exact contracts.
