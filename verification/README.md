# slot_alloc

A bump allocator that serves allocations from a fixed memory range, the
switch that decides whether the system allocator or such a bump allocator
serves the current thread, and the slot bookkeeping of a store of equally
sized shared-memory slots.

- `src/` is the verified library (Verus): `inner_alloc` (the bump allocator
  and its alignment arithmetic), `switch` (the allocator slot and the
  decisions made on it), `store` (the layout of a store and its free-slot
  stack), and `in_global` in `lib.rs`.
- `app/` holds what runs around it: the thread-local allocator slot and the
  global allocator, the system calls (`shm_open`, `mmap`, ...), the `Store`
  handle and the typed `View`s that live inside slots.
- `tests/` exercises the library on concrete values.
