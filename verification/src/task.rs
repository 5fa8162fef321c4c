//! Task control blocks: the per-process record and the operations that
//! change its scheduling and accounting fields.

use vstd::prelude::*;
use crate::config::{
    BIG_STRIDE, DEFAULT_PRIORITY, MAX_PRIORITY, MIN_PRIORITY, NOT_STARTED, USEC_PER_MSEC,
};
use crate::loader::{ProgramImage, ProgramImageView};
use crate::mm::{MemorySet, MemorySetView};
use crate::syscall::{bucket_of, find_bucket, is_tracked, SYSCALL_COUNT};

verus! {

/// The status of a task
#[derive(Clone, Copy, PartialEq, Eq, Structural, Debug)]
pub enum TaskStatus {
    /// created, not yet handed to the scheduler
    UnInit,
    /// ready to run
    Ready,
    /// running
    Running,
    /// exited, waiting for its parent to collect the exit code
    Zombie,
    /// collected by its parent
    Exited,
}

/// Number of general-purpose registers in a trap context.
pub const REG_COUNT: usize = 32;

/// Index of the stack pointer register.
pub const REG_SP: usize = 2;

/// Index of the register that carries a system call's result.
pub const REG_A0: usize = 10;

/// Mathematical content of a trap context.
#[verifier::ext_equal]
pub struct TrapContextView {
    pub x: Seq<usize>,
    pub sepc: usize,
}

impl TrapContextView {
    /// The registers of a program about to run its first instruction at
    /// `entry` with its stack at `sp`.
    pub open spec fn initial(entry: usize, sp: usize) -> TrapContextView {
        TrapContextView {
            x: Seq::new(REG_COUNT as nat, |i: int| if i == REG_SP { sp } else { 0 }),
            sepc: entry,
        }
    }

    /// The same registers with register `r` holding `value`.
    pub open spec fn with_reg(self, r: int, value: usize) -> TrapContextView {
        TrapContextView { x: self.x.update(r, value), ..self }
    }
}

/// The user-mode registers saved when a task traps into the kernel.
#[derive(Clone, Copy, Debug)]
pub struct TrapContext {
    /// General-purpose registers.
    pub x: [usize; 32],
    /// Address at which the task resumes.
    pub sepc: usize,
}

impl View for TrapContext {
    type V = TrapContextView;

    open spec fn view(&self) -> TrapContextView {
        TrapContextView { x: self.x@, sepc: self.sepc }
    }
}

impl TrapContext {
    /// The registers of a program about to run its first instruction at
    /// `entry` with its stack at `sp`.
    pub fn app_init_context(entry: usize, sp: usize) -> (cx: TrapContext)
        ensures
            cx@ == TrapContextView::initial(entry, sp),
    {
        let mut x = [0usize; 32];
        x[REG_SP] = sp;
        let cx = TrapContext { x, sepc: entry };
        assert(cx@.x =~= TrapContextView::initial(entry, sp).x);
        cx
    }

    /// A copy with the result register holding `value`.
    pub fn with_result(&self, value: usize) -> (cx: TrapContext)
        ensures
            cx@ == self@.with_reg(REG_A0 as int, value),
    {
        let mut x = self.x;
        x[REG_A0] = value;
        let cx = TrapContext { x, sepc: self.sepc };
        assert(cx@.x =~= self@.x.update(REG_A0 as int, value));
        cx
    }
}

/// A priority level outside the range a task may have.
#[derive(Clone, Copy, PartialEq, Eq, Structural, Debug)]
pub struct InvalidPriority;

/// Whether `level` is a priority a task may have.
pub open spec fn priority_valid(level: isize) -> bool {
    MIN_PRIORITY <= level <= MAX_PRIORITY
}

/// How far one turn on the processor advances the stride of a task with
/// priority `prio_level`.
pub open spec fn stride_step(prio_level: u8) -> u8 {
    BIG_STRIDE / prio_level
}

/// A counter one higher, or unchanged once it has reached the largest value
/// it can hold.
pub open spec fn bump(count: u32) -> u32 {
    if count < u32::MAX {
        (count + 1) as u32
    } else {
        count
    }
}

/// Milliseconds, rounded up, from `start_time` to `now`, both in
/// microseconds. Zero when the clock reads earlier than `start_time`.
pub open spec fn elapsed_ms(start_time: isize, now: usize) -> int {
    if now >= start_time {
        (now - start_time + USEC_PER_MSEC - 1) / (USEC_PER_MSEC as int)
    } else {
        0
    }
}

/// The time stamp a task gets when it is first scheduled at clock reading
/// `now`: the reading itself, or the largest stamp there is when the reading
/// is beyond it.
pub open spec fn stamp_of(now: usize) -> isize {
    if now <= isize::MAX {
        now as isize
    } else {
        isize::MAX
    }
}

/// Mathematical content of a task control block.
#[verifier::ext_equal]
pub struct TaskView {
    pub pid: usize,
    pub task_status: TaskStatus,
    pub trap_cx: TrapContextView,
    pub memory_set: MemorySetView,
    pub parent: Option<usize>,
    pub children: Seq<usize>,
    pub exit_code: i32,
    pub prio_level: u8,
    pub stride: u8,
    pub start_time: isize,
    pub syscalls_cnt: Seq<u32>,
}

impl TaskView {
    /// What holds of every task: its address space is well-formed, its
    /// priority is in range, and its histogram and registers have their
    /// fixed sizes.
    pub open spec fn wf(self) -> bool {
        &&& self.memory_set.wf()
        &&& MIN_PRIORITY <= self.prio_level <= MAX_PRIORITY
        &&& self.syscalls_cnt.len() == SYSCALL_COUNT
        &&& self.trap_cx.x.len() == REG_COUNT
        &&& self.start_time >= NOT_STARTED
    }

    /// A task just created from `image`, with pid `pid` and parent `parent`:
    /// not yet scheduled, default priority, nothing counted.
    pub open spec fn fresh(pid: usize, parent: Option<usize>, image: ProgramImageView)
        -> TaskView {
        TaskView {
            pid,
            task_status: TaskStatus::UnInit,
            trap_cx: TrapContextView::initial(image.entry, image.user_sp),
            memory_set: image.memory_set,
            parent,
            children: Seq::empty(),
            exit_code: 0,
            prio_level: DEFAULT_PRIORITY,
            stride: 0,
            start_time: NOT_STARTED,
            syscalls_cnt: Seq::new(SYSCALL_COUNT as nat, |i: int| 0u32),
        }
    }

    /// The child that the task creates under pid `pid` when it forks: a copy
    /// of the address space and of the registers, with the result register
    /// cleared, the parent's priority and stride, and fresh accounting.
    pub open spec fn forked(self, pid: usize) -> TaskView {
        TaskView {
            pid,
            task_status: TaskStatus::UnInit,
            trap_cx: self.trap_cx.with_reg(REG_A0 as int, 0),
            memory_set: self.memory_set,
            parent: Some(self.pid),
            children: Seq::empty(),
            exit_code: 0,
            prio_level: self.prio_level,
            stride: self.stride,
            start_time: NOT_STARTED,
            syscalls_cnt: Seq::new(SYSCALL_COUNT as nat, |i: int| 0u32),
        }
    }

    /// The task after it replaced its program by `image`: new address space
    /// and registers, everything else as before.
    pub open spec fn execed(self, image: ProgramImageView) -> TaskView {
        TaskView {
            trap_cx: TrapContextView::initial(image.entry, image.user_sp),
            memory_set: image.memory_set,
            ..self
        }
    }

    /// The task after one more invocation of system call `id` was counted:
    /// the bucket of a known call goes up by one (and stays at the largest
    /// count once there); an unknown call changes nothing.
    pub open spec fn recorded(self, id: usize) -> TaskView {
        if is_tracked(id) {
            TaskView {
                syscalls_cnt: self.syscalls_cnt.update(
                    bucket_of(id),
                    bump(self.syscalls_cnt[bucket_of(id)]),
                ),
                ..self
            }
        } else {
            self
        }
    }

    /// The task after a request to set its priority to `level`.
    pub open spec fn with_priority(self, level: isize) -> TaskView {
        if priority_valid(level) {
            TaskView { prio_level: level as u8, ..self }
        } else {
            self
        }
    }

    /// The task after a request to move the end of its heap by `delta`.
    pub open spec fn change_program_brk(self, delta: i32) -> TaskView {
        TaskView { memory_set: self.memory_set.change_brk(delta), ..self }
    }

    /// The task with another address space.
    pub open spec fn with_memory_set(self, memory_set: MemorySetView) -> TaskView {
        TaskView { memory_set, ..self }
    }

    /// The task in another status.
    pub open spec fn with_status(self, task_status: TaskStatus) -> TaskView {
        TaskView { task_status, ..self }
    }
}

/// The task control block (TCB) of a task.
pub struct TaskControlBlock {
    /// Process identifier, fixed at creation
    pub pid: usize,
    /// The task status in its lifecycle
    pub task_status: TaskStatus,
    /// Saved user-mode registers
    pub trap_cx: TrapContext,
    /// The address space
    pub memory_set: MemorySet,
    /// Pid of the parent, if any
    pub parent: Option<usize>,
    /// Pids of the children, oldest first
    pub children: Vec<usize>,
    /// Exit code, meaningful once the task is a zombie
    pub exit_code: i32,
    /// Priority level, which governs the stride increment
    pub prio_level: u8,
    /// Accumulated scheduling stride
    pub stride: u8,
    /// Time of the first schedule in microseconds, -1 before it
    pub start_time: isize,
    /// How often the task invoked each system call, by bucket
    pub syscalls_cnt: [u32; SYSCALL_COUNT],
}

impl View for TaskControlBlock {
    type V = TaskView;

    open spec fn view(&self) -> TaskView {
        TaskView {
            pid: self.pid,
            task_status: self.task_status,
            trap_cx: self.trap_cx@,
            memory_set: self.memory_set@,
            parent: self.parent,
            children: self.children@,
            exit_code: self.exit_code,
            prio_level: self.prio_level,
            stride: self.stride,
            start_time: self.start_time,
            syscalls_cnt: self.syscalls_cnt@,
        }
    }
}

impl TaskControlBlock {
    /// Creates the task that runs `image`, under pid `pid` and parent
    /// `parent`.
    pub fn new(pid: usize, parent: Option<usize>, image: &ProgramImage) -> (task:
        TaskControlBlock)
        requires
            image.wf(),
        ensures
            task@ == TaskView::fresh(pid, parent, image@),
            task@.wf(),
    {
        let task = TaskControlBlock {
            pid,
            task_status: TaskStatus::UnInit,
            trap_cx: TrapContext::app_init_context(image.entry(), image.user_sp()),
            memory_set: image.memory_set(),
            parent,
            children: Vec::new(),
            exit_code: 0,
            prio_level: DEFAULT_PRIORITY,
            stride: 0,
            start_time: NOT_STARTED,
            syscalls_cnt: [0u32; SYSCALL_COUNT],
        };
        assert(task@.syscalls_cnt =~= TaskView::fresh(pid, parent, image@).syscalls_cnt);
        task
    }

    /// Creates the child that the task forks off, under pid `pid`.
    pub fn fork(&self, pid: usize) -> (child: TaskControlBlock)
        requires
            self@.wf(),
        ensures
            child@ == self@.forked(pid),
            child@.wf(),
    {
        let child = TaskControlBlock {
            pid,
            task_status: TaskStatus::UnInit,
            trap_cx: self.trap_cx.with_result(0),
            memory_set: self.memory_set.duplicate(),
            parent: Some(self.pid),
            children: Vec::new(),
            exit_code: 0,
            prio_level: self.prio_level,
            stride: self.stride,
            start_time: NOT_STARTED,
            syscalls_cnt: [0u32; SYSCALL_COUNT],
        };
        assert(child@.syscalls_cnt =~= self@.forked(pid).syscalls_cnt);
        child
    }

    /// Replaces the program of the task by `image`.
    pub fn exec(&mut self, image: &ProgramImage)
        requires
            old(self)@.wf(),
            image.wf(),
        ensures
            final(self)@ == old(self)@.execed(image@),
            final(self)@.wf(),
    {
        self.memory_set = image.memory_set();
        self.trap_cx = TrapContext::app_init_context(image.entry(), image.user_sp());
    }

    /// Moves the end of the heap by `delta` bytes and returns where it was,
    /// or returns `None` and changes nothing when the result would lie below
    /// the heap's start, beyond the address space, or over mapped pages.
    pub fn change_program_brk(&mut self, delta: i32) -> (old_brk: Option<usize>)
        requires
            old(self)@.wf(),
        ensures
            final(self)@ == old(self)@.change_program_brk(delta),
            final(self)@.wf(),
            old(self)@.memory_set.brk_allowed(delta) ==> old_brk == Some(
                old(self)@.memory_set.program_brk,
            ),
            !old(self)@.memory_set.brk_allowed(delta) ==> old_brk is None,
    {
        self.memory_set.change_brk(delta)
    }

    /// Counts one invocation of system call `syscall_id`; does nothing for
    /// a call that has no bucket.
    pub fn record_syscall(&mut self, syscall_id: usize)
        requires
            old(self)@.wf(),
        ensures
            final(self)@ == old(self)@.recorded(syscall_id),
            final(self)@.wf(),
    {
        if let Some(bucket) = find_bucket(syscall_id) {
            if self.syscalls_cnt[bucket] < u32::MAX {
                self.syscalls_cnt[bucket] = self.syscalls_cnt[bucket] + 1;
            }
            assert(self@.syscalls_cnt =~= old(self)@.recorded(syscall_id).syscalls_cnt);
        }
    }

    /// Milliseconds, rounded up, since the task was first scheduled, at
    /// clock reading `now` in microseconds.
    pub fn elapsed_running_time(&self, now: usize) -> (ms: usize)
        requires
            self@.start_time >= 0,
        ensures
            ms == elapsed_ms(self@.start_time, now),
    {
        let start = self.start_time as usize;
        if now < start {
            0
        } else {
            let d = now - start;
            if d % USEC_PER_MSEC == 0 {
                d / USEC_PER_MSEC
            } else {
                d / USEC_PER_MSEC + 1
            }
        }
    }

    /// Sets the priority to `level` if it is one a task may have, and
    /// otherwise changes nothing and says so.
    pub fn set_priority(&mut self, level: isize) -> (r: Result<(), InvalidPriority>)
        requires
            old(self)@.wf(),
        ensures
            final(self)@ == old(self)@.with_priority(level),
            final(self)@.wf(),
            r is Ok <==> priority_valid(level),
    {
        if level < MIN_PRIORITY as isize || level > MAX_PRIORITY as isize {
            return Err(InvalidPriority);
        }
        self.prio_level = level as u8;
        Ok(())
    }
}

} // verus!
