# nano-mooncake

A small transfer engine and object store for KVCache-centric disaggregated
inference, with its decision core verified by Verus.

Named memory segments live on nodes. A node registers a local buffer, a registry
records where it can be reached, and other nodes read and write it over TCP:

```text
[8B length | 8B remote offset | 1B opcode] + payload
```

The store places leased objects into those segments in two phases: `put_start`
allocates a replica by first fit, the data moves, and `put_end` commits it. A
committed object is found until its lease has run out.

## Layout

| Path | Purpose |
|------|---------|
| `src/wire.rs`, `src/memory.rs` | request headers; byte ranges of a segment |
| `src/transfer.rs`, `src/server.rs` | both sides of an exchange |
| `src/batch.rs`, `src/transfer_engine.rs` | batches of transfers, the engine of a node |
| `src/metadata.rs`, `src/name_map.rs` | the segment registry and the map under it |
| `src/allocator.rs`, `src/store.rs` | allocation, replicas, leases |
| `src/store_client.rs` | where a put writes and where a get reads |
| `src/transfer_laws.rs` | what holds of transfers from end to end |
| `src/store_laws.rs`, `src/store_history.rs` | what holds of the store over time |
| `src/error.rs`, `src/decimal.rs`, `src/clock.rs` | errors and their text; clock readings |
| `app/` | sockets, threads and locks around the library |
| `tests/` | the library on concrete values |

Only the clock is trusted: `src/clock.rs` calls `std::time::Instant` and claims no
more of a reading than its range; that readings do not go back is proved. Whatever depends on the time also comes as a
function of the reading (`put_end_at`, `query_at`, `run_eviction_at`), which is
specified exactly.
