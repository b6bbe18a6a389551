# cameodb_server

The decisions of a CameoDB node, with their contracts proved by Verus: how documents are judged and
routed, how searches are gathered, merged and paged, how writes are put together and answered, how
indexes are described to people and to agents, and which configurations a node starts with.

- `src/` is the library. Every module opens with what it is about. Executable functions state in
  `ensures` what they return; what relates several of them is a public proof function whose name
  begins with `law_`.
- `tests/` runs the library on concrete values.
- `app/` runs it: threads, channels, actors, and the traits through which a host supplies storage, the
  key ring, the coordinator and the other nodes. It carries out what the library decides.

What the library takes from other crates stands behind small functions whose doc comments name what
they rest on: `chrono` reads dates, `serde_json` reads and quotes numbers and texts, `uuid` writes and
reads identifiers, `tokio` carries jobs and commands.

Floating-point scores enter the library as a `Score`: a place among scores and the number a response
shows. `app/convert.rs` makes one from what the engine computes.
