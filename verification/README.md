# mcbe_raknet_rs

A RakNet server library for Minecraft Bedrock, written in Verus. The
library's logic is verified: the offline handshake packets, datagrams,
frames and acknowledgements are encoded and decoded against byte-level
specifications with round-trip proofs; split frames are reassembled with an
exact contract, and a run of `add` calls over the parts of one compound, in
any order, is proved to give back the parts joined in index order; the
per-address rate limiter keeps its budgets within a window and its metric
totals; the server's peer bindings stay consistent in both directions (part
of the server's well-formedness while peer ids are not exhausted); and the
listener's worker is a verified step function from its registry and one
input (a command, a server event, a rejected hand-over) to the next registry
and the actions to perform.

Layout:

- `src/` — the verified library.
  - `protocol/` — wire primitives, sequence numbers, reliability, frames,
    acknowledgements, datagrams.
  - `handshake.rs` — offline (unconnected) packets.
  - `session/` — split reassembly, send priorities, integer tunables.
  - `transport/` — runtime events and configurations, the rate limiter.
  - `server.rs`, `listener.rs`, `connection/` — peer bindings, event routing,
    the listener's registry and connection outcomes.
  - `buffer.rs`, `time.rs`, `net.rs`, `table.rs`, `error.rs` — byte buffers,
    time, addresses, keyed tables, errors.
- `app/` — the asynchronous plumbing over tokio (connections, the loop that
  feeds the listener's worker step and performs its actions, the server loop
  over a sharded runtime), error types with `std::error::Error`, and the
  floating-point session tunables.
- `tests/` — tests of the library.
