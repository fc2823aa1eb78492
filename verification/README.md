# alchemy

An in-memory transactional storage engine with an attribute cache, written in
Verus. The library in `src/` holds the engine's logic with its contracts:

- `attribute_cache/`: record ids, lock words, clock-cache metadata and the
  clock cache itself, with the schemas that map tuples to cached attributes.
- `storage/`: the object-id array and table storage.
- `index.rs`: the hash and radix-tree indexes, behind trusted wrappers of the
  `flurry` and `congee` crates.
- `table.rs`: tables that tie an index, storage and a cache together.
- `log.rs`: the log buffer and its flush decisions.
- `metric/`: event counters.
- `benchmark/`: workload generators and result accounting (micro and TPC-C),
  the TPC-C tables, their loading and the steps of the five transactions.
- `async_task/`: the task switcher, prefetcher and traversal test utilities.

`app/` holds what Verus does not see: file and thread plumbing for the logger,
future polling and the processor's prefetch hints, thread-local metrics, float-valued random distributions, the
arithmetic on the doubles of the TPC-C rows between the transactions' steps, and
the serde/thiserror copies of library types.
