# Ginkgo kernel logic

The decisions of the Ginkgo kernel, verified with Verus. Hardware, DMA memory,
locks and the rest of the kernel stay outside: the library takes what was read
or answered and says what has to be done.

- `src/syscall/` — system calls: argument layouts, rights, handles, channels,
  files, memory, threads, waits and requests. A `Session` asks the rest of the
  kernel one question at a time and logs every question with its answer; the
  contracts speak of that log.
- `src/usb/` — xHCI: bringing a controller up, rings and contexts, descriptors,
  hubs, slots, enumeration and removal. State machines ask for one access at a
  time.
- `src/virtio_blk/` — the transitional virtio block driver: setup, descriptor
  chains, the used ring, cancellation and reset.
- `src/writeback/` — a bounded write-back block cache with ordered flushes.
- `src/thread_scheduler/`, `src/task.rs` — scheduling classes, budgets and
  priority donation; a cooperative task scheduler.
- `src/wait_runtime/` — preallocated waits with generation-tagged tokens.
- `src/program_registry/`, `src/trust.rs` — the program registry format and the
  signed manifest of trusted programs.
- `src/window.rs`, `src/bytes.rs`, `src/text.rs`, `src/storage.rs` — where
  device memory is mapped, byte layouts, UTF-8 and fallible allocation.
- `app/` — volatile memory, ports, locks and the traits of other crates around
  the library.
- `tests/` — the library from outside.
