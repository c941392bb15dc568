//! Constants of the kernel's configuration.
use vstd::prelude::*;

verus! {

/// Size of one page in bytes.
pub const PAGE_SIZE: usize = 4096;

/// Syscall ids below this bound are counted per task.
pub const MAX_SYSCALL: usize = 500;

} // verus!
