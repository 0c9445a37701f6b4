# store_system

A key-value object store with a master/worker cluster, written in Verus.

- `src/` is the verified library: the write buffer and read path of a store
  and of a sharded store, quadkey sharding, rendezvous routing and the
  worker registry of the master, the guardian's supervision policy and
  start order, the log pipeline (worker buffer, SQL builders, intake
  decisions), the request and response shapes of the HTTP and WebSocket
  interfaces, configuration defaults and start-up arithmetic. Calls into
  outside crates (SeaHash, base64, chrono, serde_json, moka, dashmap) go
  through small trusted wrappers whose contracts name what they return.
- `tests/` runs the library on concrete values.
- `app/` is the program around it: configuration files, the databases
  (jammdb, SQLite), the HTTP and WebSocket servers, the supervision loop and
  `main`.

Run `store_system --config master.yaml [master|worker|standalone]`, or
`store_system guardian --config guardian.yaml [--role master|worker]`.
