//! Task management and the process syscalls of a small teaching kernel, modelled as a
//! verified library: the round-robin scheduler, per-task syscall counters, the user
//! address spaces that `mmap`, `munmap`, `sbrk` and `trace` operate on.

pub mod config;
pub mod laws;
pub mod mm;
pub mod syscall;
pub mod task;
