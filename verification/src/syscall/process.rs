//! Process management syscalls

use vstd::prelude::*;
use crate::config::{MAX_SYSCALL_NUM, USEC_PER_SEC};
use crate::loader::{ProgramImage, ProgramImageView};
use crate::model::KernelView;
use crate::processor::{
    add_current_syscall_cnt, change_program_brk, current_status, exec,
    exit_current_and_run_next, fork, get_current_running_time, get_current_syscalls_cnt,
    map_current, set_priority, spawn, suspend_current_and_run_next, unmap_current, waitpid,
    Kernel,
};
use crate::syscall::{
    bucket_of, is_bucket_of, is_tracked, lemma_buckets_distinct, lemma_tracked_calls,
    SYSCALL_COUNT, SYSCALL_EXEC,
    SYSCALL_EXIT, SYSCALL_FORK, SYSCALL_GET_TIME, SYSCALL_MAP, SYSCALL_MMAP, SYSCALL_MUNMAP,
    SYSCALL_SBRK, SYSCALL_SET_PRIORITY, SYSCALL_SPAWN, SYSCALL_TASK_INFO, SYSCALL_WAITPID,
    SYSCALL_WRITE, SYSCALL_YIELD,
};
use crate::task::{elapsed_ms, priority_valid, TaskStatus};

verus! {

/// A clock reading split into seconds and microseconds.
#[derive(Clone, Copy, PartialEq, Eq, Structural, Debug)]
pub struct TimeVal {
    pub sec: usize,
    pub usec: usize,
}

/// Task information
pub struct TaskInfo {
    /// Task status in it's life cycle
    pub status: TaskStatus,
    /// The numbers of syscall called by task
    pub syscall_times: [u32; MAX_SYSCALL_NUM],
    /// Total running time of task
    pub time: usize,
}

/// File descriptor of the console.
pub const FD_STDOUT: usize = 1;

/// The histogram by system call number that `task_info` reports: the slot
/// of each known system call holds the count of its bucket, and every other
/// slot keeps what it held.
pub open spec fn remapped(before: Seq<u32>, counts: Seq<u32>) -> Seq<u32> {
    Seq::new(
        MAX_SYSCALL_NUM as nat,
        |n: int|
            if is_tracked(n as usize) {
                counts[bucket_of(n as usize)]
            } else {
                before[n]
            },
    )
}

/// What `mmap` and `munmap` return for the end of the range they are asked
/// about: the end address, unless it lies beyond the address space.
pub open spec fn range_end(start: usize, len: usize) -> Option<usize> {
    if start + len <= usize::MAX {
        Some((start + len) as usize)
    } else {
        None
    }
}

impl KernelView {
    /// The state after an `mmap` of `len` bytes at `start` by the running
    /// task.
    pub open spec fn sys_mmap(self, start: usize, len: usize, port: usize) -> KernelView {
        match range_end(start, len) {
            Some(end) => self.recorded(SYSCALL_MMAP).mapped(start, end, port),
            None => self.recorded(SYSCALL_MMAP),
        }
    }

    /// Whether an `mmap` of `len` bytes at `start` by the running task
    /// succeeds: the range lies in the address space, starts on a page
    /// boundary, comes with an acceptable permission word and holds no
    /// mapped page.
    pub open spec fn sys_mmap_ok(self, start: usize, len: usize, port: usize) -> bool {
        range_end(start, len) is Some && self.cur_task().memory_set.map_outcome(
            start,
            range_end(start, len)->0,
            port,
        ) is Ok
    }

    /// The state after a `munmap` of `len` bytes at `start` by the running
    /// task.
    pub open spec fn sys_munmap(self, start: usize, len: usize) -> KernelView {
        match range_end(start, len) {
            Some(end) => self.recorded(SYSCALL_MUNMAP).unmapped(start, end),
            None => self.recorded(SYSCALL_MUNMAP),
        }
    }

    /// Whether a `munmap` of `len` bytes at `start` by the running task
    /// succeeds: the range lies in the address space, starts on a page
    /// boundary and is exactly one framed area.
    pub open spec fn sys_munmap_ok(self, start: usize, len: usize) -> bool {
        range_end(start, len) is Some && self.cur_task().memory_set.unmap_outcome(
            start,
            range_end(start, len)->0,
        ) is Ok
    }
}

/// task exits and submit an exit code
pub fn sys_exit(kernel: &mut Kernel, exit_code: i32)
    requires
        old(kernel).wf(),
        old(kernel)@.current is Some,
    ensures
        final(kernel).wf(),
        final(kernel)@ == old(kernel)@.recorded(SYSCALL_EXIT).exited(exit_code),
{
    add_current_syscall_cnt(kernel, SYSCALL_EXIT);
    exit_current_and_run_next(kernel, exit_code);
}

/// current task gives up resources for other tasks
pub fn sys_yield(kernel: &mut Kernel) -> (r: isize)
    requires
        old(kernel).wf(),
        old(kernel)@.current is Some,
    ensures
        final(kernel).wf(),
        final(kernel)@ == old(kernel)@.recorded(SYSCALL_YIELD).yielded(),
        r == 0,
{
    add_current_syscall_cnt(kernel, SYSCALL_YIELD);
    suspend_current_and_run_next(kernel);
    0
}

/// get time with second and microsecond: splits the clock reading `now_us`
/// into `ts`
pub fn sys_get_time(kernel: &mut Kernel, ts: &mut TimeVal, _tz: usize, now_us: usize) -> (r:
    isize)
    requires
        old(kernel).wf(),
        old(kernel)@.current is Some,
    ensures
        final(kernel).wf(),
        final(kernel)@ == old(kernel)@.recorded(SYSCALL_GET_TIME),
        r == 0,
        final(ts).sec == now_us / USEC_PER_SEC,
        final(ts).usec == now_us % USEC_PER_SEC,
{
    add_current_syscall_cnt(kernel, SYSCALL_GET_TIME);
    ts.sec = now_us / USEC_PER_SEC;
    ts.usec = now_us % USEC_PER_SEC;
    0
}

/// One of the first `b` buckets counts system call `id`.
pub open spec fn in_first_buckets(b: int, id: usize) -> bool {
    exists|k: int| 0 <= k < b && is_bucket_of(k, id)
}

/// Copies the counts of the buckets into the slots of their system calls.
pub fn remap_counts(times: &mut [u32; MAX_SYSCALL_NUM], counts: &[u32; SYSCALL_COUNT])
    ensures
        final(times)@ == remapped(old(times)@, counts@),
{
    let mut b: usize = 0;
    while b < SYSCALL_COUNT
        invariant
            b <= SYSCALL_COUNT,
            forall|n: usize|
                n < MAX_SYSCALL_NUM ==> #[trigger] times@[n as int] == (if in_first_buckets(
                    b as int,
                    n,
                ) {
                    counts@[bucket_of(n)]
                } else {
                    old(times)@[n as int]
                }),
        decreases SYSCALL_COUNT - b,
    {
        let id = SYSCALL_MAP[b];
        let ghost before = times@;
        proof {
            assert(is_bucket_of(b as int, id));
            lemma_buckets_distinct(b as int, b as int, id);
            lemma_tracked_calls(id);
        }
        times[id] = counts[b];
        b += 1;
        proof {
            assert forall|n: usize| n < MAX_SYSCALL_NUM implies #[trigger] times@[n as int] == (
            if in_first_buckets(b as int, n) {
                counts@[bucket_of(n)]
            } else {
                old(times)@[n as int]
            }) by {
                if n == id {
                    assert(is_bucket_of(b - 1, n));
                } else {
                    if in_first_buckets(b as int, n) {
                        let k = choose|k: int| 0 <= k < b && is_bucket_of(k, n);
                        assert(k != b - 1);
                        assert(0 <= k < b - 1 && is_bucket_of(k, n));
                        assert(in_first_buckets(b - 1, n));
                    }
                    if in_first_buckets(b - 1, n) {
                        let k = choose|k: int| 0 <= k < b - 1 && is_bucket_of(k, n);
                        assert(0 <= k < b && is_bucket_of(k, n));
                    }
                    assert(times@[n as int] == before[n as int]);
                }
            }
        }
    }
    proof {
        assert forall|n: int| 0 <= n < MAX_SYSCALL_NUM implies times@[n] == remapped(
            old(times)@,
            counts@,
        )[n] by {
            let id = n as usize;
            assert(times@[id as int] == times@[n]);
            if is_tracked(id) {
                let k = bucket_of(id);
                assert(is_bucket_of(k, id));
                assert(in_first_buckets(SYSCALL_COUNT as int, id));
            }
            if in_first_buckets(SYSCALL_COUNT as int, id) {
                let k = choose|k: int| 0 <= k < SYSCALL_COUNT && is_bucket_of(k, id);
                assert(is_bucket_of(k, id));
            }
        }
        assert(times@ =~= remapped(old(times)@, counts@));
    }
}

/// Reports on the running task into `ti`: its status, which is always
/// running, the milliseconds since its first schedule at clock reading
/// `now_us`, and how often it invoked each system call, this one included
pub fn sys_task_info(kernel: &mut Kernel, ti: &mut TaskInfo, now_us: usize) -> (r: isize)
    requires
        old(kernel).wf(),
        old(kernel)@.current is Some,
    ensures
        final(kernel).wf(),
        final(kernel)@ == old(kernel)@.recorded(SYSCALL_TASK_INFO),
        r == 0,
        final(ti).status is Running,
        final(ti).time == elapsed_ms(old(kernel)@.cur_task().start_time, now_us),
        final(ti).syscall_times@ == remapped(
            old(ti).syscall_times@,
            final(kernel)@.cur_task().syscalls_cnt,
        ),
{
    add_current_syscall_cnt(kernel, SYSCALL_TASK_INFO);
    ti.time = get_current_running_time(kernel, now_us);
    ti.status = current_status(kernel);
    let counts = get_current_syscalls_cnt(kernel);
    remap_counts(&mut ti.syscall_times, &counts);
    0
}

/// Maps `len` bytes at `start` for the running task, with the rights that
/// `port` encodes. Returns 0, or -1, changing nothing, when the request is
/// refused.
pub fn sys_mmap(kernel: &mut Kernel, start: usize, len: usize, port: usize) -> (r: isize)
    requires
        old(kernel).wf(),
        old(kernel)@.current is Some,
    ensures
        final(kernel).wf(),
        final(kernel)@ == old(kernel)@.sys_mmap(start, len, port),
        old(kernel)@.sys_mmap_ok(start, len, port) ==> r == 0,
        !old(kernel)@.sys_mmap_ok(start, len, port) ==> r == -1 && final(kernel)@ == old(
            kernel,
        )@.recorded(SYSCALL_MMAP),
{
    add_current_syscall_cnt(kernel, SYSCALL_MMAP);
    let ghost s = kernel@;
    let end = match start.checked_add(len) {
        Some(end) => end,
        None => {
            return -1;
        },
    };
    match map_current(kernel, start, end, port) {
        Ok(_) => 0,
        Err(_) => {
            assert(kernel@.tasks =~= s.tasks);
            -1
        },
    }
}

/// Unmaps `len` bytes at `start` for the running task. Returns 0, or -1,
/// changing nothing, when the request is refused.
pub fn sys_munmap(kernel: &mut Kernel, start: usize, len: usize) -> (r: isize)
    requires
        old(kernel).wf(),
        old(kernel)@.current is Some,
    ensures
        final(kernel).wf(),
        final(kernel)@ == old(kernel)@.sys_munmap(start, len),
        old(kernel)@.sys_munmap_ok(start, len) ==> r == 0,
        !old(kernel)@.sys_munmap_ok(start, len) ==> r == -1 && final(kernel)@ == old(
            kernel,
        )@.recorded(SYSCALL_MUNMAP),
{
    add_current_syscall_cnt(kernel, SYSCALL_MUNMAP);
    let ghost s = kernel@;
    let end = match start.checked_add(len) {
        Some(end) => end,
        None => {
            return -1;
        },
    };
    match unmap_current(kernel, start, end) {
        Ok(_) => 0,
        Err(_) => {
            assert(kernel@.tasks =~= s.tasks);
            -1
        },
    }
}

/// change data segment size
pub fn sys_sbrk(kernel: &mut Kernel, size: i32) -> (r: isize)
    requires
        old(kernel).wf(),
        old(kernel)@.current is Some,
    ensures
        final(kernel).wf(),
        final(kernel)@ == old(kernel)@.recorded(SYSCALL_SBRK).brk_changed(size),
        old(kernel)@.cur_task().memory_set.brk_allowed(size) ==> r == old(
            kernel,
        )@.cur_task().memory_set.program_brk as isize,
        !old(kernel)@.cur_task().memory_set.brk_allowed(size) ==> r == -1,
{
    add_current_syscall_cnt(kernel, SYSCALL_SBRK);
    if let Some(old_brk) = change_program_brk(kernel, size) {
        #[verifier::truncate]
        (old_brk as isize)
    } else {
        -1
    }
}

/// The running task forks. Returns the child's pid to the parent, or -1
/// when no pid is free.
pub fn sys_fork(kernel: &mut Kernel) -> (r: isize)
    requires
        old(kernel).wf(),
        old(kernel)@.current is Some,
    ensures
        final(kernel).wf(),
        final(kernel)@ == old(kernel)@.recorded(SYSCALL_FORK).forked(),
        old(kernel)@.can_create() ==> r == old(kernel)@.next_pid(),
        !old(kernel)@.can_create() ==> r == -1,
{
    add_current_syscall_cnt(kernel, SYSCALL_FORK);
    proof {
        lemma_recorded_pids(old(kernel)@, SYSCALL_FORK);
    }
    match fork(kernel) {
        Some(pid) => pid as isize,
        None => -1,
    }
}

/// The running task replaces its program by `image`, what the loader found
/// under the name the task gave. Returns 0, or -1 when it found nothing.
pub fn sys_exec(kernel: &mut Kernel, image: Option<&ProgramImage>) -> (r: isize)
    requires
        old(kernel).wf(),
        old(kernel)@.current is Some,
        image is Some ==> image->0.wf(),
    ensures
        final(kernel).wf(),
        image is Some ==> r == 0 && final(kernel)@ == old(kernel)@.recorded(SYSCALL_EXEC).execed(
            image->0@,
        ),
        image is None ==> r == -1 && final(kernel)@ == old(kernel)@.recorded(SYSCALL_EXEC),
{
    add_current_syscall_cnt(kernel, SYSCALL_EXEC);
    exec(kernel, image)
}

/// The running task spawns a child that runs `image`, what the loader found
/// under the name the task gave. Returns the child's pid, or -1 when the
/// loader found nothing or no pid is free.
pub fn sys_spawn(kernel: &mut Kernel, image: Option<&ProgramImage>) -> (r: isize)
    requires
        old(kernel).wf(),
        old(kernel)@.current is Some,
        image is Some ==> image->0.wf(),
    ensures
        final(kernel).wf(),
        image is Some ==> final(kernel)@ == old(kernel)@.recorded(SYSCALL_SPAWN).spawned(
            image->0@,
        ),
        image is Some && old(kernel)@.can_create() ==> r == old(kernel)@.next_pid(),
        image is None ==> final(kernel)@ == old(kernel)@.recorded(SYSCALL_SPAWN),
        image is None || !old(kernel)@.can_create() ==> r == -1,
{
    add_current_syscall_cnt(kernel, SYSCALL_SPAWN);
    proof {
        lemma_recorded_pids(old(kernel)@, SYSCALL_SPAWN);
    }
    spawn(kernel, image)
}

/// The running task waits for a child: any child when `pid` is -1, else the
/// child with that pid. Returns -1 when it has no such child, -2 when none
/// of them is a zombie yet, and else collects the first such zombie, stores
/// its exit code in `exit_code` and returns its pid.
pub fn sys_waitpid(kernel: &mut Kernel, pid: isize, exit_code: &mut i32) -> (r: isize)
    requires
        old(kernel).wf(),
        old(kernel)@.current is Some,
    ensures
        final(kernel).wf(),
        final(kernel)@ == old(kernel)@.recorded(SYSCALL_WAITPID).waited(pid),
        r == old(kernel)@.wait_result(pid),
        old(kernel)@.has_zombie_match(pid) ==> *final(exit_code) == old(kernel)@.tasks[old(
            kernel,
        )@.wait_child(pid)].exit_code,
        !old(kernel)@.has_zombie_match(pid) ==> *final(exit_code) == *old(exit_code),
{
    add_current_syscall_cnt(kernel, SYSCALL_WAITPID);
    proof {
        lemma_recorded_wait(old(kernel)@, SYSCALL_WAITPID, pid);
    }
    waitpid(kernel, pid, exit_code)
}

/// Sets the priority of the running task. Returns the new priority, or -1,
/// changing nothing, when `prio` is not between 2 and 16.
pub fn sys_set_priority(kernel: &mut Kernel, prio: isize) -> (r: isize)
    requires
        old(kernel).wf(),
        old(kernel)@.current is Some,
    ensures
        final(kernel).wf(),
        final(kernel)@ == old(kernel)@.recorded(SYSCALL_SET_PRIORITY).with_priority(prio),
        priority_valid(prio) ==> r == prio,
        !priority_valid(prio) ==> r == -1,
{
    add_current_syscall_cnt(kernel, SYSCALL_SET_PRIORITY);
    set_priority(kernel, prio)
}

/// Accepts `len` bytes for file `fd`. Only the console takes output:
/// returns `len` for it, and -1 for any other file or for a length that no
/// result can express. Putting the bytes on the console is the caller's
/// part.
pub fn sys_write(kernel: &mut Kernel, fd: usize, len: usize) -> (r: isize)
    requires
        old(kernel).wf(),
        old(kernel)@.current is Some,
    ensures
        final(kernel).wf(),
        final(kernel)@ == old(kernel)@.recorded(SYSCALL_WRITE),
        fd == FD_STDOUT && len <= isize::MAX ==> r == len,
        !(fd == FD_STDOUT && len <= isize::MAX) ==> r == -1,
{
    add_current_syscall_cnt(kernel, SYSCALL_WRITE);
    if fd == FD_STDOUT && len <= isize::MAX as usize {
        len as isize
    } else {
        -1
    }
}

/// Counting a system call changes neither which pids are taken nor which
/// pid comes next.
pub proof fn lemma_recorded_pids(s: KernelView, id: usize)
    requires
        s.wf(),
        s.current is Some,
    ensures
        s.recorded(id).can_create() == s.can_create(),
        s.recorded(id).next_pid() == s.next_pid(),
        s.recorded(id).current == s.current,
{
    let u = s.recorded(id);
    assert(s.live(s.cur()));
    assert(u.tasks.dom() =~= s.tasks.dom());
    crate::model::lemma_next_pid_exists(s);
    assert(u.is_next_pid(s.next_pid())) by {
        assert(!u.live(s.next_pid()));
        assert forall|q: usize| q < s.next_pid() implies #[trigger] u.live(q) by {
            assert(s.live(q));
        }
    }
    crate::model::lemma_next_pid(u, s.next_pid());
    assert forall|p: usize| u.is_next_pid(p) == s.is_next_pid(p) by {
        assert(u.live(p) == s.live(p));
        if s.is_next_pid(p) {
            assert forall|q: usize| q < p implies #[trigger] u.live(q) by {
                assert(s.live(q));
            }
        }
        if u.is_next_pid(p) {
            assert forall|q: usize| q < p implies #[trigger] s.live(q) by {
                assert(u.live(q));
            }
        }
    }
}

/// Counting a system call changes nothing that a `waitpid` looks at.
pub proof fn lemma_recorded_wait(s: KernelView, id: usize, pid: isize)
    requires
        s.wf(),
        s.current is Some,
    ensures
        s.recorded(id).wait_result(pid) == s.wait_result(pid),
        s.recorded(id).has_zombie_match(pid) == s.has_zombie_match(pid),
        s.has_zombie_match(pid) ==> {
            &&& s.recorded(id).first_zombie_match(pid) == s.first_zombie_match(pid)
            &&& s.recorded(id).wait_child(pid) == s.wait_child(pid)
            &&& s.recorded(id).tasks[s.wait_child(pid)].exit_code == s.tasks[s.wait_child(
                pid,
            )].exit_code
        },
{
    let u = s.recorded(id);
    let c = s.cur();
    assert(s.live(c));
    assert(u.cur_task().children == s.cur_task().children);
    assert forall|i: int| u.is_zombie_match(pid, i) == s.is_zombie_match(pid, i) by {
        if 0 <= i < s.cur_task().children.len() {
            let k = s.cur_task().children[i];
            assert(s.is_child(c, k));
        }
    }
    assert forall|i: int| u.is_first_zombie_match(pid, i) == s.is_first_zombie_match(pid, i) by {
        if s.is_first_zombie_match(pid, i) {
            assert forall|j: int| 0 <= j < i implies !u.is_zombie_match(pid, j) by {
                assert(!s.is_zombie_match(pid, j));
            }
        }
        if u.is_first_zombie_match(pid, i) {
            assert forall|j: int| 0 <= j < i implies !s.is_zombie_match(pid, j) by {
                assert(!u.is_zombie_match(pid, j));
            }
        }
    }
    assert(u.has_match(pid) == s.has_match(pid)) by {
        if s.has_match(pid) {
            let i = choose|i: int|
                0 <= i < s.cur_task().children.len() && KernelView::wait_accepts(
                    pid,
                    #[trigger] s.cur_task().children[i],
                );
            assert(KernelView::wait_accepts(pid, u.cur_task().children[i]));
        }
        if u.has_match(pid) {
            let i = choose|i: int|
                0 <= i < u.cur_task().children.len() && KernelView::wait_accepts(
                    pid,
                    #[trigger] u.cur_task().children[i],
                );
            assert(KernelView::wait_accepts(pid, s.cur_task().children[i]));
        }
    }
    assert(u.has_zombie_match(pid) == s.has_zombie_match(pid)) by {
        if s.has_zombie_match(pid) {
            let i = choose|i: int| s.is_zombie_match(pid, i);
            assert(u.is_zombie_match(pid, i));
        }
        if u.has_zombie_match(pid) {
            let i = choose|i: int| u.is_zombie_match(pid, i);
            assert(s.is_zombie_match(pid, i));
        }
    }
    if s.has_zombie_match(pid) {
        let i = s.first_zombie_match(pid);
        crate::model::lemma_first_zombie_match(s, pid);
        crate::model::lemma_first_zombie_match(u, pid);
        let j = u.first_zombie_match(pid);
        assert(s.is_first_zombie_match(pid, j));
        assert(i == j) by {
            if i < j {
                assert(!s.is_zombie_match(pid, i));
            }
            if j < i {
                assert(!s.is_zombie_match(pid, j));
            }
        }
        let k = s.cur_task().children[i];
        assert(s.is_child(c, k));
    }
}

} // verus!
