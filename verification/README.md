# crimocracy (verified legal and intelligence core)

The legal and intelligence systems of a deterministic crime-simulation: case files, evidence,
arrests and custody, informants, witnesses, detective work and its resolution, autonomous
institutional passes (staffing, scheduling, custody, disclosure, cold-case decay), and the
knowledge records that people and organizations hold.

The library's mutations come in `validate_* → commit` pairs. Validation returns a token pinned
to the versions it saw; commit re-checks them and either applies the change or fails with the
state unchanged. Each of these functions states in its contract its result and the new state
over spec functions, and preserves `AppState::wf`, the state invariant. The `law_*` proof
functions state properties across calls.

The state's fields are public, so a caller can also build or alter a state directly (tests do,
to set up boundary cases). Nothing then guarantees `wf`: `invariants::validate_state` checks it
at run time, and `validate_state_against_registry` also checks the authored custody rules. Every
library function requires `wf` of the state it is given.

Layout: `src/base.rs` (identifiers, time, ratings), `src/world.rs` and `src/state.rs` (the world
and the whole state), `src/intelligence/` (knowledge records), `src/legal/` (the legal systems),
`src/invariants.rs` (state validation), `src/registry.rs` (authored rules). Tests are in `tests/`.

Chance enters only as arguments: resolution variance and recruitment rolls are drawn by the
caller.
