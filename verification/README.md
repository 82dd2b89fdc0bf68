# crdt_store

A leaderless key-value store for exchange rates whose entries carry vector
clocks and merge as CRDTs. The library under `src/` is verified with Verus:

- `vector_clock` — clocks, comparison, merge, with the order and lattice laws
- `crdt` — entry merge (registers, grow-only and PN counters, OR-sets) and the
  convergence laws; `lww_register`, `or_set`, `pn_counter` operations
- `gossip` — digests, deltas, the gossip message conversions, peer choice
- `store` — the node's write and merge rules
- `server` — what the request handlers answer
- `config` — node settings and peer-list parsing
- `wal` — write-ahead-log record framing, with the read-back law
- `ingester` — which provider quotes become which writes
- `types`, `text`, `cli` — shared data and string helpers

`app/` holds the program around it: the gRPC service and client, Redis
storage and Pub/Sub, the gossip loop, metrics, the rate feeds, and the
serialisable copies of the library's types.
