//! System calls: their numbers, the histogram buckets that count them, and
//! the dispatcher.

use vstd::prelude::*;
use crate::config::USEC_PER_SEC;
use crate::loader::ProgramImage;
use crate::model::KernelView;
use crate::processor::Kernel;
use crate::syscall::process::{
    remapped, sys_exec, sys_exit, sys_fork, sys_get_time, sys_mmap, sys_munmap, sys_sbrk,
    sys_set_priority, sys_spawn, sys_task_info, sys_waitpid, sys_write, sys_yield, TaskInfo,
    TimeVal, FD_STDOUT,
};
use crate::task::{elapsed_ms, priority_valid};

pub mod process;

verus! {

/// write syscall
pub const SYSCALL_WRITE: usize = 64;

/// exit syscall
pub const SYSCALL_EXIT: usize = 93;

/// yield syscall
pub const SYSCALL_YIELD: usize = 124;

/// set_priority syscall
pub const SYSCALL_SET_PRIORITY: usize = 140;

/// gettime syscall
pub const SYSCALL_GET_TIME: usize = 169;

/// sbrk syscall
pub const SYSCALL_SBRK: usize = 214;

/// munmap syscall
pub const SYSCALL_MUNMAP: usize = 215;

/// fork syscall
pub const SYSCALL_FORK: usize = 220;

/// exec syscall
pub const SYSCALL_EXEC: usize = 221;

/// mmap syscall
pub const SYSCALL_MMAP: usize = 222;

/// waitpid syscall
pub const SYSCALL_WAITPID: usize = 260;

/// spawn syscall
pub const SYSCALL_SPAWN: usize = 400;

/// taskinfo syscall
pub const SYSCALL_TASK_INFO: usize = 410;

/// Number of system calls, and of histogram buckets.
pub const SYSCALL_COUNT: usize = 13;

/// The system call that each histogram bucket counts.
pub const SYSCALL_MAP: [usize; 13] = [
    SYSCALL_WRITE,
    SYSCALL_EXIT,
    SYSCALL_YIELD,
    SYSCALL_GET_TIME,
    SYSCALL_TASK_INFO,
    SYSCALL_FORK,
    SYSCALL_EXEC,
    SYSCALL_WAITPID,
    SYSCALL_MMAP,
    SYSCALL_MUNMAP,
    SYSCALL_SBRK,
    SYSCALL_SPAWN,
    SYSCALL_SET_PRIORITY,
];

/// Bucket `b` counts system call `id`.
pub open spec fn is_bucket_of(b: int, id: usize) -> bool {
    0 <= b < SYSCALL_COUNT && SYSCALL_MAP[b] == id
}

/// System call `id` is one the kernel knows, and so has a bucket.
pub open spec fn is_tracked(id: usize) -> bool {
    exists|b: int| is_bucket_of(b, id)
}

/// The bucket that counts system call `id`.
pub open spec fn bucket_of(id: usize) -> int {
    choose|b: int| is_bucket_of(b, id)
}

/// The system calls that have a bucket are the thirteen of the table, and
/// each number is below the size of the reported histogram.
pub proof fn lemma_tracked_calls(id: usize)
    ensures
        is_tracked(id) <==> (id == SYSCALL_WRITE || id == SYSCALL_EXIT || id == SYSCALL_YIELD
            || id == SYSCALL_GET_TIME || id == SYSCALL_TASK_INFO || id == SYSCALL_FORK || id
            == SYSCALL_EXEC || id == SYSCALL_WAITPID || id == SYSCALL_MMAP || id
            == SYSCALL_MUNMAP || id == SYSCALL_SBRK || id == SYSCALL_SPAWN || id
            == SYSCALL_SET_PRIORITY),
        is_tracked(id) ==> id < crate::config::MAX_SYSCALL_NUM,
{
    assert(is_bucket_of(0, SYSCALL_WRITE));
    assert(is_bucket_of(1, SYSCALL_EXIT));
    assert(is_bucket_of(2, SYSCALL_YIELD));
    assert(is_bucket_of(3, SYSCALL_GET_TIME));
    assert(is_bucket_of(4, SYSCALL_TASK_INFO));
    assert(is_bucket_of(5, SYSCALL_FORK));
    assert(is_bucket_of(6, SYSCALL_EXEC));
    assert(is_bucket_of(7, SYSCALL_WAITPID));
    assert(is_bucket_of(8, SYSCALL_MMAP));
    assert(is_bucket_of(9, SYSCALL_MUNMAP));
    assert(is_bucket_of(10, SYSCALL_SBRK));
    assert(is_bucket_of(11, SYSCALL_SPAWN));
    assert(is_bucket_of(12, SYSCALL_SET_PRIORITY));
}

/// No two buckets count the same system call.
pub proof fn lemma_buckets_distinct(a: int, b: int, id: usize)
    requires
        is_bucket_of(a, id),
        is_bucket_of(b, id),
    ensures
        a == b,
        b == bucket_of(id),
{
    let c = bucket_of(id);
    assert(is_bucket_of(c, id));
    assert(SYSCALL_MAP[0] == 64 && SYSCALL_MAP[1] == 93 && SYSCALL_MAP[2] == 124
        && SYSCALL_MAP[3] == 169 && SYSCALL_MAP[4] == 410 && SYSCALL_MAP[5] == 220
        && SYSCALL_MAP[6] == 221 && SYSCALL_MAP[7] == 260 && SYSCALL_MAP[8] == 222
        && SYSCALL_MAP[9] == 215 && SYSCALL_MAP[10] == 214 && SYSCALL_MAP[11] == 400
        && SYSCALL_MAP[12] == 140);
}

/// Looks up the bucket that counts system call `id`.
pub fn find_bucket(id: usize) -> (bucket: Option<usize>)
    ensures
        bucket is Some <==> is_tracked(id),
        bucket is Some ==> bucket->0 == bucket_of(id) && is_bucket_of(bucket->0 as int, id),
{
    let mut b: usize = 0;
    while b < SYSCALL_COUNT
        invariant
            b <= SYSCALL_COUNT,
            forall|k: int| 0 <= k < b ==> !is_bucket_of(k, id),
        decreases SYSCALL_COUNT - b,
    {
        if SYSCALL_MAP[b] == id {
            proof {
                assert(is_bucket_of(b as int, id));
                lemma_buckets_distinct(b as int, b as int, id);
            }
            return Some(b);
        }
        b += 1;
    }
    None
}

/// What the trap layer hands over with a system call, and what it gets
/// back besides the result: the clock reading, the program the loader found
/// for an `exec` or `spawn`, and the places for what `get_time`, `task_info`
/// and `waitpid` store for the caller.
pub struct SyscallIo {
    /// Clock reading in microseconds.
    pub now_us: usize,
    /// The program that the loader found under the name the task gave.
    pub image: Option<ProgramImage>,
    /// Where `get_time` stores the time.
    pub time_val: TimeVal,
    /// Where `task_info` stores its report.
    pub task_info: TaskInfo,
    /// Where `waitpid` stores the exit code of the child it collected.
    pub exit_code: i32,
}

impl KernelView {
    /// The state after the running task made system call `id` with
    /// arguments `args`, where the loader found `image`.
    pub open spec fn after_syscall(
        self,
        id: usize,
        args: [usize; 3],
        image: Option<ProgramImage>,
    ) -> KernelView {
        if id == SYSCALL_EXIT {
            self.recorded(id).exited(args[0] as i32)
        } else if id == SYSCALL_YIELD {
            self.recorded(id).yielded()
        } else if id == SYSCALL_FORK {
            self.recorded(id).forked()
        } else if id == SYSCALL_EXEC && image is Some {
            self.recorded(id).execed(image->0@)
        } else if id == SYSCALL_SPAWN && image is Some {
            self.recorded(id).spawned(image->0@)
        } else if id == SYSCALL_WAITPID {
            self.recorded(id).waited(args[0] as isize)
        } else if id == SYSCALL_MMAP {
            self.sys_mmap(args[0], args[1], args[2])
        } else if id == SYSCALL_MUNMAP {
            self.sys_munmap(args[0], args[1])
        } else if id == SYSCALL_SBRK {
            self.recorded(id).brk_changed(args[0] as i32)
        } else if id == SYSCALL_SET_PRIORITY {
            self.recorded(id).with_priority(args[0] as isize)
        } else {
            self.recorded(id)
        }
    }

    /// What system call `id` with arguments `args` returns to the running
    /// task, where the loader found `image`. An exit returns to nobody; its
    /// result is 0.
    pub open spec fn syscall_result(
        self,
        id: usize,
        args: [usize; 3],
        image: Option<ProgramImage>,
    ) -> int {
        if id == SYSCALL_WRITE {
            if args[0] == FD_STDOUT && args[2] <= isize::MAX {
                args[2] as int
            } else {
                -1
            }
        } else if id == SYSCALL_FORK {
            if self.can_create() {
                self.next_pid() as int
            } else {
                -1
            }
        } else if id == SYSCALL_EXEC {
            if image is Some {
                0
            } else {
                -1
            }
        } else if id == SYSCALL_SPAWN {
            if image is Some && self.can_create() {
                self.next_pid() as int
            } else {
                -1
            }
        } else if id == SYSCALL_WAITPID {
            self.wait_result(args[0] as isize)
        } else if id == SYSCALL_MMAP {
            if self.sys_mmap_ok(args[0], args[1], args[2]) {
                0
            } else {
                -1
            }
        } else if id == SYSCALL_MUNMAP {
            if self.sys_munmap_ok(args[0], args[1]) {
                0
            } else {
                -1
            }
        } else if id == SYSCALL_SBRK {
            if self.cur_task().memory_set.brk_allowed(args[0] as i32) {
                (self.cur_task().memory_set.program_brk as isize) as int
            } else {
                -1
            }
        } else if id == SYSCALL_SET_PRIORITY {
            if priority_valid(args[0] as isize) {
                (args[0] as isize) as int
            } else {
                -1
            }
        } else {
            0
        }
    }
}

/// What the trap layer has to carry to or from the caller's memory once a
/// system call has returned.
#[derive(Clone, Copy, PartialEq, Eq, Structural, Debug)]
pub enum Transfer {
    /// Nothing.
    Nothing,
    /// Put the `len` bytes at `addr` on the console.
    Console { addr: usize, len: usize },
    /// Store the time value at `addr`.
    Time { addr: usize },
    /// Store the task report at `addr`.
    Info { addr: usize },
    /// Store the exit code at `addr`.
    ExitCode { addr: usize },
}

/// The transfer that system call `id` with arguments `args` asks for when it
/// has returned `result`: a successful `write` sends its buffer to the
/// console, `get_time` and `task_info` store at their first argument, and a
/// `waitpid` that collected a child stores at its second.
pub open spec fn transfer_of(id: usize, args: [usize; 3], result: isize) -> Transfer {
    if id == SYSCALL_WRITE && result >= 0 {
        Transfer::Console { addr: args[1], len: result as usize }
    } else if id == SYSCALL_GET_TIME {
        Transfer::Time { addr: args[0] }
    } else if id == SYSCALL_TASK_INFO {
        Transfer::Info { addr: args[0] }
    } else if id == SYSCALL_WAITPID && result >= 0 {
        Transfer::ExitCode { addr: args[1] }
    } else {
        Transfer::Nothing
    }
}

/// Computes [`transfer_of`].
pub fn transfer(syscall_id: usize, args: [usize; 3], result: isize) -> (t: Transfer)
    ensures
        t == transfer_of(syscall_id, args, result),
{
    if syscall_id == SYSCALL_WRITE && result >= 0 {
        Transfer::Console { addr: args[1], len: result as usize }
    } else if syscall_id == SYSCALL_GET_TIME {
        Transfer::Time { addr: args[0] }
    } else if syscall_id == SYSCALL_TASK_INFO {
        Transfer::Info { addr: args[0] }
    } else if syscall_id == SYSCALL_WAITPID && result >= 0 {
        Transfer::ExitCode { addr: args[1] }
    } else {
        Transfer::Nothing
    }
}

/// handle syscall exception with `syscall_id` and other arguments. Counts
/// the call for the running task, carries it out and returns its result.
/// The id must be one the kernel knows: any other is a kernel fault.
pub fn syscall(kernel: &mut Kernel, syscall_id: usize, args: [usize; 3], io: &mut SyscallIo) -> (r:
    isize)
    requires
        old(kernel).wf(),
        old(kernel)@.current is Some,
        is_tracked(syscall_id),
        old(io).image is Some ==> old(io).image->0.wf(),
    ensures
        final(kernel).wf(),
        final(kernel)@ == old(kernel)@.after_syscall(syscall_id, args, old(io).image),
        r == old(kernel)@.syscall_result(syscall_id, args, old(io).image),
        final(io).now_us == old(io).now_us,
        final(io).image == old(io).image,
        syscall_id == SYSCALL_GET_TIME ==> final(io).time_val == (TimeVal {
            sec: old(io).now_us / USEC_PER_SEC,
            usec: old(io).now_us % USEC_PER_SEC,
        }),
        syscall_id != SYSCALL_GET_TIME ==> final(io).time_val == old(io).time_val,
        syscall_id == SYSCALL_TASK_INFO ==> {
            &&& final(io).task_info.status is Running
            &&& final(io).task_info.time == elapsed_ms(
                old(kernel)@.cur_task().start_time,
                old(io).now_us,
            )
            &&& final(io).task_info.syscall_times@ == remapped(
                old(io).task_info.syscall_times@,
                final(kernel)@.cur_task().syscalls_cnt,
            )
        },
        syscall_id != SYSCALL_TASK_INFO ==> final(io).task_info == old(io).task_info,
        syscall_id == SYSCALL_WAITPID && old(kernel)@.has_zombie_match(args[0] as isize)
            ==> final(io).exit_code == old(kernel)@.tasks[old(kernel)@.wait_child(
            args[0] as isize,
        )].exit_code,
        !(syscall_id == SYSCALL_WAITPID && old(kernel)@.has_zombie_match(args[0] as isize))
            ==> final(io).exit_code == old(io).exit_code,
{
    proof {
        lemma_tracked_calls(syscall_id);
    }
    match syscall_id {
        SYSCALL_WRITE => sys_write(kernel, args[0], args[2]),
        SYSCALL_EXIT => {
            sys_exit(kernel, #[verifier::truncate] (args[0] as i32));
            0
        },
        SYSCALL_YIELD => sys_yield(kernel),
        SYSCALL_GET_TIME => sys_get_time(kernel, &mut io.time_val, args[1], io.now_us),
        SYSCALL_TASK_INFO => sys_task_info(kernel, &mut io.task_info, io.now_us),
        SYSCALL_FORK => sys_fork(kernel),
        SYSCALL_EXEC => sys_exec(kernel, io.image.as_ref()),
        SYSCALL_WAITPID => sys_waitpid(
            kernel,
            #[verifier::truncate] (args[0] as isize),
            &mut io.exit_code,
        ),
        SYSCALL_MMAP => sys_mmap(kernel, args[0], args[1], args[2]),
        SYSCALL_MUNMAP => sys_munmap(kernel, args[0], args[1]),
        SYSCALL_SBRK => sys_sbrk(kernel, #[verifier::truncate] (args[0] as i32)),
        SYSCALL_SPAWN => sys_spawn(kernel, io.image.as_ref()),
        SYSCALL_SET_PRIORITY => sys_set_priority(
            kernel,
            #[verifier::truncate] (args[0] as isize),
        ),
        _ => {
            assert(false);
            0
        },
    }
}

} // verus!
