# aethalloc

A memory allocator whose bookkeeping is verified with Verus.

- `src/` is the verified library: size classes, magazines and their global
  pools, the slab and buddy allocators, the per-thread caches, the
  allocation and free paths of the global allocator, the C ABI decisions
  (`malloc`, `calloc`, `realloc`, `aligned_alloc`, `posix_memalign`), the
  ring buffer and support-core command handling, pointer tagging
  (software, x86 LAM, MTE, CHERI permissions), metrics and the Prometheus
  exporter's request handling.
  Every public function states in `ensures` what it returns or changes; the
  laws that span several calls (LIFO reuse of freed blocks, FIFO order of the
  ring over any run of pushes and pops, buddy split/merge round trips,
  bounded global free lists, metrics flushing that keeps totals, a cached
  block held in at most one magazine and 16-byte aligned, distinct aligned
  slab slots, buddy blocks that never overlap, the size read back from a
  block) are public proof functions or `ensures` clauses next to the code
  they speak of (`src/ownership.rs` for the magazine caches).
- `tests/` runs the library on concrete values.
- `app/` holds what cannot be verified: `mmap`/`munmap`, the
  `GlobalAlloc` and C entry points that drive the verified steps, the
  metrics HTTP server, page-table reads, inline assembly and the
  floating-point figures.
