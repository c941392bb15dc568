# os_task

Task management and the process syscalls of a small RISC-V teaching kernel, written in
Verus.

- `src/mm.rs`: user address spaces (pages with flags and bytes), SV39 addresses, mapping
  and unmapping of page ranges.
- `src/task.rs`: task control blocks, the task manager, round-robin scheduling decisions,
  per-task syscall counters, heap resizing, kernel reads and writes of user memory.
- `src/syscall/process.rs`: `exit`, `yield`, `get_time`, `trace`, `mmap`, `munmap`, `sbrk`.
- `src/laws.rs`: properties relating several operations.
- `app/main.rs`: the global task manager, the context switch, the timer and the raw
  syscall entry points.
