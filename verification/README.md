# newviso

The decision-making core of the NewViso engine host, verified with Verus.

`src/` holds the verified library:

- `wire`, `wire_laws`: the binary protocol spoken with the scripting
  provider, with round-trip laws for requests and responses.
- `json`, `readers`: a model of JSON values, JSON pointers, and the readers of
  input snapshots, script commands and scene records.
- `commands`, `scripting`, `bindings`: decoding of script command buffers,
  merging of script control responses, the bounded script event queue, and
  UI text bindings.
- `scene`, `scene_world`, `scene_load`, `runtime_entities`, `sky`: visibility
  masks, dirty flags, process claims, the scene ledger (lifecycle, hierarchy,
  process control, mutations), loading a scene from an ECS snapshot, runtime
  entity upserts, and the sky dome's texture frames and model descriptions.
- `world`, `reality`, `reservations`, `facts`, `checkpoint`, `persistence`, `presentation`:
  living-world validation rules, the reality event history with its
  generated ids, scenario point reservations, world facts, checkpoint
  validation, save envelopes,
  and how world actors are presented by scene entities.
- `physics`: physics body commands and the scene updates drawn from them.
- `frame`: which stages one engine frame runs.
- `bootstrap`, `clients`, `textures`, `strmap`, `text`: start-up decisions,
  provider client handles, texture layout arithmetic, a sorted string map and
  string helpers.

`tests/` runs the library on concrete values. `app/` holds the parts that
talk to the outside world: the script service host, the script runtime loop,
serde conversions and UI templates.
