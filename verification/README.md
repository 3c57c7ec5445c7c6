# mesh_todo

A todo list that lives on every device of a user and keeps the copies in step
over the local network. Each node has an Ed25519 identity, signs its own
session cookies after a Google sign-in with PKCE, announces itself with UDP
beacons, and pulls rows from peers only after they sign a fresh challenge with
the key whose fingerprint their beacons announce.
Rows are merged last-writer-wins on the pair `(updated_at, node_id)`: the
later time wins, and the greater node id breaks a tie.

## Layout

- `src/` is the verified library (Verus):
  - `text.rs`, `codec.rs`: decimal text, byte-wise order, hex and URL-safe base64,
    stated exactly.
  - `crypto.rs`: SHA-256, Ed25519, randomness and UUIDs, each a thin call into
    its crate with the contract the crate documents.
  - `models.rs`, `db.rs`: rows, the per-user store (a map from id to row),
    merging, and the laws of merging (idempotence, commutativity of rows and
    of batches, no lost newer write, convergence of two replicas).
  - `handlers.rs`, `auth.rs`, `identity.rs`: what the API does to a store,
    the sign-in flow, session tokens and their round trip.
  - `state.rs`, `beacon.rs`: the peer table and beacons.
  - `replication.rs`: both sides of the replication handshake as state
    machines, the plan of a mesh round (a pull from a manual peer names the
    user whose rows it asks for), and the laws that rows flow only after a
    challenge.
- `app/` is the program around it: HTTP routes, SQLite, sockets, timers and
  JSON, calling the library for every decision.
- `tests/` runs the library on concrete values.
