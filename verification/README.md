# tabletennis_tournament

A Swiss-style table tennis tournament engine whose logic is verified with
Verus: entrant registration and rosters, Blossom-based pairing with relaxation
tiers, table assignment, match results, standings replayed from the round
history, snapshots that restore what they save, and developer traces.

Layout:

- `src/` — the verified library.
  - `identity.rs`, `results.rs`, `scheduling.rs`, `table.rs`, `tournament.rs`,
    `value_types.rs`, `text.rs`, `platform_time.rs` — value types, match
    results, the tournament frame, decimal text and the diagnostic clock.
  - `pairing/` — the pairing request and its validation, candidate graphs per
    relaxation tier, edge costs (two cost models), bye eligibility, the
    cardinality and weighted Blossom solvers, the exhaustive reference solver,
    proposal building, publication and table assignment, and the laws of the
    weight projection, the tiers and the candidate graphs.
  - `application/` — the tournament application: round operations, scoring,
    standings, snapshots and restore, and the simulation trace.
  - `api_contract.rs` — the request and response shapes of the service API.
- `tests/` — the behaviour tests, run against the compiled library.
- `app/` — serde copies of the snapshot, trace and API types with conversions,
  and `Display`/`Error` wrappers for the error types.
