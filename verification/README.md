# os_kernel

The process, thread and hart bookkeeping of a small RISC-V teaching kernel,
written in Verus with its rules proved.

`src/` is the verified library:

- `id` — `RecycleAllocator`, the per-process thread id allocator: ids in use
  are never handed out twice, and a released id is the next one handed out.
- `process` — `ProcessControlBlockInner`, the state of a process behind its
  lock: lowest-free file descriptor allocation, the thread table (installing
  a thread, waiting for one), the state of a new process and of a forked child.
- `user_stack` — where `exec` puts the argument vector and the argument
  strings on the new user stack, and the word-aligned stack pointer below them.
- `processor` — `Processor`, the per-hart state: the running thread, the idle
  context, and the clocks that user and kernel run times are measured from.
- `gpu` — the test pattern drawn into the VirtIO GPU framebuffer.

`app/` is the unverified kernel glue: the spin locks, the per-hart table, the
VirtIO GPU device, the context switch, and the calls that read the clock or
write user memory. `tests/` runs the library on concrete values.
