# protocol_store

A verified store for the Signal protocol state of an account: one-time,
signed and Kyber pre-keys, their counters, sessions, contacts' identity keys
with the verification state recorded for each, and sender keys.

- `src/sled_db.rs` — the sled database as a map from (tree name, key) to
  value, and the trusted wrappers of the sled calls the store makes.
- `src/trees.rs` — the names of the trees of the ACI and PNI identities
  (`SledTrees`, `AciSledStore`, `PniSledStore`) and the proof that they do
  not collide.
- `src/encoding.rs` — the names of entries: decimal IDs, hyphenated UUIDs,
  `<name>.<device>` addresses, `<name>.<device>/<uuid>` sender keys.
- `src/identity.rs` — identity keys, registration data, the trust rule, and
  the verification record (a state byte, then the key) that saving an
  identity stores in the `identity_verifications` tree.
- `src/protocol.rs` — `SledStore`, which opens the database and holds the
  only handle onto it, and `SledProtocolStore`, whose operations on one
  identity's trees take that store and have contracts over its contents.
- `src/sqlite.rs` — `SqliteProtocolStore`: the answers of the SQLite store
  computed from what its statements return.
- `src/laws.rs` — what holds across operations: reads give back writes,
  trees and entries never overwrite one another, counters round-trip, the
  trust rule, clearing and deleting sessions, and sessions of other names
  never changing an account's sub-devices.
- `app/lib.rs` — opening the sled database, and running the SQLite
  statements.

Records are handled in their serialized form: the store keeps and returns
bytes.
