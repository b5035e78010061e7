# halloc

Allocation strategies studied for Redis-like workloads, and the RESP client
codec of a small key-value store, verified with Verus.

- `src/layout.rs` — layouts and `align_up`, with the bit-level proof that the
  mask computes the least aligned address.
- `src/free_list.rs` — free-list allocator (best, worst and first fit) with
  alignment-aware splitting; its state is `FreeListView`.
- `src/sized_tcmalloc.rs` — size-class allocator with LIFO free lists.
- `src/bump.rs` — bump allocator with top-of-stack deallocation.
- `src/stats.rs` — size classes and allocation statistics.
- `src/rseq.rs` — decisions of rseq registration and per-CPU shard tables.
- `src/resp.rs`, `src/buffers.rs` — command lines to commands, RESP frames and
  bytes (`bytes::Bytes` / `BytesMut`).
- `app/` — mmap, the global allocator, the rseq critical sections, the
  servers and clients.
