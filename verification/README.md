# shard-stream

The core of a durable streaming engine that stripes successive append batches
across shard lanes while exposing one ordered logical stream, written in Verus:
executable Rust whose behaviour is stated in contracts and proved.

- `src/` is the verified library.
  - Collections: `dense`, `sparse`, `maps`, `batch_set`, `channel`.
  - Ordering: `sequencer`, `partition`, `coordinator`, `completion`, `replica`,
    `admin`, `dispatch`, `pool`.
  - Restart: `journal`, `recovery`, `recover_all`.
  - Appends and fetches: `append`, `engine`, `replica_group`, `fetch`,
    `fetch_session`, `worker`, `worker_loop`, `durable_apply`, `durable_sink`.
  - Leases: `lease`, `control`.
  - Surfaces: `client`, `http_route`, `wire`, `bench`.
  - `guarantees` and `agreement` state what holds across several requests.
- `app/` is ordinary Rust around the library: the benchmark program, shard
  threads, the threads that deliver to a sink, the RPC calls, the HTTP/3
  listener, the HTTP client and the lease file.
- `tests/` runs the library, with the outside crates linked.

Partitions are described by `PartitionModel`, a mathematical state; each request
is a spec function from a state to the next state and an answer, and the
executable functions are proved to compute exactly that.
