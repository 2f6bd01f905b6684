# meio

The decisions of a lightweight actor framework, written and verified in Verus.

- `src/lifecycle` keeps the children of an actor and terminates them group by
  group. `laws.rs` states what holds of each step of the termination, and
  `history.rs` what holds over all calls.
- `src/connect` holds the routes of an HTTP server, the handshake of websockets,
  and a client that connects again after failures.
- `src/ids.rs`, `src/handlers.rs` and `src/runtime.rs` hold ids, messages and
  the handles to actors and tasks.
- `app` runs the library on `tokio`: it performs the actions that the library
  asks for, and hands the events back.

The library opens no socket and starts no task. What it believes of other crates
stands in `src/channels.rs` (queues of `futures`), `src/connect/slots.rs`
(`slab`), `src/connect/handshake.rs` (`headers`) and `src/ids.rs` (the identity of
an allocation, and hashing, of `std`).
