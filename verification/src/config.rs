//! Constants shared by the whole kernel core.

use vstd::prelude::*;

verus! {

/// Bytes per page.
pub const PAGE_SIZE: usize = 4096;

/// Slots of the syscall-number-indexed histogram reported by `task_info`.
pub const MAX_SYSCALL_NUM: usize = 500;

/// Stride budget shared out by priority: a task scheduled once advances its
/// stride by `BIG_STRIDE / prio_level`.
pub const BIG_STRIDE: u8 = 255;

/// Lowest priority level a task may have.
pub const MIN_PRIORITY: u8 = 2;

/// Highest priority level a task may have.
pub const MAX_PRIORITY: u8 = 16;

/// Priority level of a task that never asked for another.
pub const DEFAULT_PRIORITY: u8 = 16;

/// Pid of the first process, which adopts orphans.
pub const INIT_PID: usize = 0;

/// `start_time` of a task that has not been scheduled yet.
pub const NOT_STARTED: isize = -1;

/// Microseconds per millisecond.
pub const USEC_PER_MSEC: usize = 1000;

/// Microseconds per second.
pub const USEC_PER_SEC: usize = 1_000_000;

} // verus!
