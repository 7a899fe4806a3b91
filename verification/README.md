# deja_runtime

Records the calls that a service makes across its boundaries (databases,
caches, clocks, randomness, other services) and replays them: a replayed request
is given what was recorded, call by call, and every difference is reported.

The library is written in Verus. What each function returns or changes is stated
in its `requires` and `ensures`, and proved.

## Layout

- `src/` is the verified library.
  - `text`, `order`, `fnv`, `json`, `table`: texts, orders, hashes, documents and
    maps that the rest is stated over.
  - `event`, `builder`, `lineage`, `graph`, `observed`, `metrics`, `report`: what
    a recorded or observed call says.
  - `canonical`, `captured`, `capture_key`: how a value is written down, with
    what has no order in one order, and with secrets as keyed digests.
  - `args_hash`, `identity`: when two calls were given the same.
  - `hook`, `recording`, `replay_hook`, `lookup`, `lookup_hook`, `replay_index`,
    `lockstep`: recording, and replay along a tape or out of a lookup table.
    `lockstep` proves that a call is found again by the keys it was recorded
    under.
  - `ambient`, `spans`, `process`: what surrounds a call.
  - `crossing`, `dispatch`, `hash_seed`: crossing a boundary.
  - `state_key`, `db_key`, `seed`, `seed_plan`: the state a call reads and
    writes, and the state a replay starts from.
- `app/` is the runtime around it: threads, files, the environment, tracing
  layers, serde, and crossings that await. It holds hooks behind locks and hands
  the library what surrounds a call as an `Ambient`.
- `tests/` runs the library.

## Conventions

A hook is a plain state: operations take it by `&mut`, and what it recorded or
observed waits in it to be taken out. Correlation, lineage, span path and the time
a call starts are never read from the surroundings; they are passed in. Only when
a call ends is read off the clock, where its event is finished.

A request that cannot be replayed faithfully is stopped, never guessed: crossings
return `Err(FailStop)`, whose `message` says why.

Public proof functions state what holds of several operations together, such as
`recorded_calls_are_found`, `substituted_calls_never_run` and
`typed_keys_round_trip`.
