//! The processor and the kernel's process state: which task runs, which
//! tasks wait, and the switch from one to the next.
//!
//! The state is an explicit value that the caller owns. Nothing here touches
//! the hardware: [`run_tasks`] decides which task gets the processor and
//! leaves the context switch to the caller.

use vstd::prelude::*;
use crate::config::{BIG_STRIDE, INIT_PID};
use crate::loader::ProgramImage;
use crate::mm::{page_ceil, page_floor, port_permission, MapArea, MapError, MapPermission};
use crate::model::{
    lemma_booted_wf, lemma_dispatched_wf, lemma_exited_wf, lemma_forked_wf, lemma_next_exists,
    lemma_next_pid, lemma_reaped_wf, lemma_released_inv, lemma_with_task_inv, lemma_yielded_wf,
    KernelView,
};
use crate::syscall::SYSCALL_COUNT;
use crate::task::{
    elapsed_ms, priority_valid, TaskControlBlock, TaskStatus, TaskView, TrapContext,
};

verus! {

/// Processor management structure
pub struct Processor {
    /// Pid of the task currently executing on the processor
    current: Option<usize>,
}

impl View for Processor {
    type V = Option<usize>;

    closed spec fn view(&self) -> Option<usize> {
        self.current
    }
}

impl Processor {
    /// Create an empty Processor
    pub fn new() -> (processor: Processor)
        ensures
            processor@ is None,
    {
        Processor { current: None }
    }

    /// Get current task in moving semanteme
    pub fn take_current(&mut self) -> (task: Option<usize>)
        ensures
            task == old(self)@,
            final(self)@ is None,
    {
        self.current.take()
    }

    /// Get current task in cloning semanteme
    pub fn current(&self) -> (task: Option<usize>)
        ensures
            task == self@,
    {
        self.current
    }

    /// Hands the processor to task `pid`.
    pub fn set_current(&mut self, pid: usize)
        ensures
            final(self)@ == Some(pid),
    {
        self.current = Some(pid);
    }
}

/// The kernel's process state: every task by pid, the ready queue, and the
/// processor.
pub struct Kernel {
    /// Slot `p` holds the task with pid `p`, if there is one.
    tasks: Vec<Option<TaskControlBlock>>,
    /// Pids of the ready tasks, in arrival order.
    ready_queue: Vec<usize>,
    processor: Processor,
}

impl View for Kernel {
    type V = KernelView;

    closed spec fn view(&self) -> KernelView {
        KernelView {
            tasks: Map::new(
                |p: usize| p < self.tasks@.len() && self.tasks@[p as int] is Some,
                |p: usize| self.tasks@[p as int]->0@,
            ),
            ready: self.ready_queue@,
            current: self.processor@,
        }
    }
}

impl Kernel {
    /// The invariant of the kernel state.
    pub open spec fn wf(&self) -> bool {
        self@.wf()
    }

    /// The state before any process exists: no task, nothing ready, the
    /// processor free.
    pub fn new() -> (kernel: Kernel)
        ensures
            kernel@ == KernelView::empty(),
            kernel.wf(),
    {
        let kernel = Kernel {
            tasks: Vec::new(),
            ready_queue: Vec::new(),
            processor: Processor::new(),
        };
        assert(kernel@.tasks =~= Map::empty());
        kernel
    }

    /// Creates the first process from `image` and queues it, unless one
    /// exists already. Says whether it did.
    pub fn add_initproc(&mut self, image: &ProgramImage) -> (created: bool)
        requires
            old(self).wf(),
            image.wf(),
        ensures
            final(self).wf(),
            created == !old(self)@.live(INIT_PID),
            created ==> final(self)@ == old(self)@.booted(image@),
            !created ==> final(self)@ == old(self)@,
    {
        if self.tasks.len() > 0 && self.tasks[0].is_some() {
            return false;
        }
        let mut task = TaskControlBlock::new(INIT_PID, None, image);
        task.task_status = TaskStatus::Ready;
        if self.tasks.len() == 0 {
            self.tasks.push(Some(task));
        } else {
            self.tasks[0] = Some(task);
        }
        self.ready_queue.push(INIT_PID);
        proof {
            lemma_booted_wf(old(self)@, image@);
            assert(self@.tasks =~= old(self)@.booted(image@).tasks);
        }
        true
    }

    /// Pid of the running task.
    pub fn current(&self) -> (pid: Option<usize>)
        ensures
            pid == self@.current,
    {
        self.processor.current()
    }

    /// The task with pid `pid`, if there is one.
    pub fn task(&self, pid: usize) -> (task: Option<&TaskControlBlock>)
        ensures
            task is Some <==> self@.live(pid),
            task is Some ==> task->0@ == self@.tasks[pid],
    {
        if pid < self.tasks.len() {
            self.tasks[pid].as_ref()
        } else {
            None
        }
    }

    /// Number of ready tasks.
    pub fn ready_len(&self) -> (n: usize)
        ensures
            n == self@.ready.len(),
    {
        self.ready_queue.len()
    }

    /// Pid of the task at position `i` of the ready queue.
    pub fn ready_at(&self, i: usize) -> (pid: usize)
        requires
            i < self@.ready.len(),
        ensures
            pid == self@.ready[i as int],
    {
        self.ready_queue[i]
    }

    /// Stride of task `pid`, which must exist.
    fn stride_of(&self, pid: usize) -> (stride: u8)
        requires
            self@.live(pid),
        ensures
            stride == self@.tasks[pid].stride,
    {
        match &self.tasks[pid] {
            Some(task) => task.stride,
            None => 0,
        }
    }

    /// Position in the ready queue of the task to run next: the first of
    /// those with the smallest stride.
    pub fn pick_next(&self) -> (i: usize)
        requires
            self.wf(),
            self@.ready.len() > 0,
        ensures
            self@.is_next(i as int),
            i == self@.next_index(),
    {
        let mut best: usize = 0;
        let mut best_stride: u8 = self.stride_of(self.ready_queue[0]);
        let mut j: usize = 1;
        assert(self@.is_first_min(0, 1));
        while j < self.ready_queue.len()
            invariant
                self.wf(),
                1 <= j <= self.ready_queue.len(),
                self@.is_first_min(best as int, j as int),
                best_stride == self@.stride_at(best as int),
            decreases self.ready_queue.len() - j,
        {
            let stride = self.stride_of(self.ready_queue[j]);
            if stride < best_stride {
                best = j;
                best_stride = stride;
            }
            j += 1;
            assert(self@.is_first_min(best as int, j as int));
        }
        proof {
            lemma_next_exists(self@);
        }
        best
    }

    /// Lowers the stride of every ready task by `base`, which none of them
    /// is below.
    fn rebase(&mut self, base: u8)
        requires
            old(self).wf(),
            forall|i: int| 0 <= i < old(self)@.ready.len() ==> base <= old(self)@.stride_at(i),
        ensures
            final(self)@ == old(self)@.rebased(base),
    {
        let mut j: usize = 0;
        while j < self.ready_queue.len()
            invariant
                old(self).wf(),
                j <= self.ready_queue.len(),
                self.ready_queue == old(self).ready_queue,
                self.processor == old(self).processor,
                self.tasks@.len() == old(self).tasks@.len(),
                forall|i: int| 0 <= i < old(self)@.ready.len() ==> base <= old(self)@.stride_at(i),
                forall|p: usize| #[trigger]
                    old(self)@.live(p) ==> self@.live(p) && self@.tasks[p] == (if old(
                        self,
                    )@.ready.take(j as int).contains(p) {
                        TaskView {
                            stride: (old(self)@.tasks[p].stride - base) as u8,
                            ..old(self)@.tasks[p]
                        }
                    } else {
                        old(self)@.tasks[p]
                    }),
                forall|p: usize| #[trigger] self@.live(p) ==> old(self)@.live(p),
            decreases self.ready_queue.len() - j,
        {
            let pid = self.ready_queue[j];
            let ghost before = self@;
            proof {
                assert(old(self)@.live(old(self)@.ready[j as int]));
                assert(!old(self)@.ready.take(j as int).contains(pid)) by {
                    if old(self)@.ready.take(j as int).contains(pid) {
                        let k = choose|k: int|
                            0 <= k < j && old(self)@.ready.take(j as int)[k] == pid;
                        assert(old(self)@.ready[k] == old(self)@.ready[j as int]);
                    }
                }
                assert(base <= old(self)@.stride_at(j as int));
            }
            match &mut self.tasks[pid] {
                Some(task) => {
                    task.stride = task.stride - base;
                },
                None => {},
            }
            j += 1;
            proof {
                assert forall|p: usize| #[trigger] self@.live(p) implies old(self)@.live(p) by {
                    assert(before.live(p));
                }
                let taken = old(self)@.ready.take(j as int);
                let taken_before = old(self)@.ready.take(j - 1);
                assert(taken =~= taken_before.push(pid));
                assert forall|p: usize| #[trigger] old(self)@.live(p) implies self@.live(p)
                    && self@.tasks[p] == (if taken.contains(p) {
                    TaskView {
                        stride: (old(self)@.tasks[p].stride - base) as u8,
                        ..old(self)@.tasks[p]
                    }
                } else {
                    old(self)@.tasks[p]
                }) by {
                    assert(before.live(p));
                    if p == pid {
                        assert(taken[j - 1] == pid);
                    } else {
                        if taken.contains(p) {
                            let k = choose|k: int| 0 <= k < taken.len() && taken[k] == p;
                            assert(taken_before[k] == p);
                        }
                        if taken_before.contains(p) {
                            let k = choose|k: int|
                                0 <= k < taken_before.len() && taken_before[k] == p;
                            assert(taken[k] == p);
                        }
                    }
                }
            }
        }
        proof {
            assert(old(self)@.ready.take(j as int) =~= old(self)@.ready);
            assert(self@.tasks =~= old(self)@.rebased(base).tasks) by {
                assert forall|p: usize| self@.tasks.dom().contains(p) == old(self)@.rebased(
                    base,
                ).tasks.dom().contains(p) by {
                    if self@.tasks.dom().contains(p) {
                        assert(self@.live(p));
                    }
                    if old(self)@.tasks.dom().contains(p) {
                        assert(old(self)@.live(p));
                    }
                }
                assert forall|p: usize| self@.tasks.dom().contains(p) implies self@.tasks[p]
                    == old(self)@.rebased(base).tasks[p] by {
                    assert(self@.live(p));
                    assert(old(self)@.live(p));
                }
            }
        }
    }
}

/// The main part of process execution and scheduling: one turn of the idle
/// loop at clock reading `now_us`. Picks the ready task with the smallest
/// stride, marks it running, advances its stride, stamps its start time on
/// a first schedule and hands it the processor. Returns its pid, for the
/// caller to switch to, or `None` when no task is ready.
pub fn run_tasks(kernel: &mut Kernel, now_us: usize) -> (next: Option<usize>)
    requires
        old(kernel).wf(),
        old(kernel)@.current is None,
    ensures
        final(kernel).wf(),
        final(kernel)@ == old(kernel)@.dispatched(now_us),
        next == final(kernel)@.current,
        next is Some <==> old(kernel)@.ready.len() > 0,
        next is Some ==> next->0 == old(kernel)@.next_task(),
{
    if kernel.ready_queue.len() == 0 {
        return None;
    }
    let i = kernel.pick_next();
    let pid = kernel.ready_queue[i];
    assert(kernel@.live(kernel@.ready[i as int]));
    let (stride, prio_level) = match &kernel.tasks[pid] {
        Some(task) => (task.stride, task.prio_level),
        None => (0, 1),
    };
    let step = BIG_STRIDE / prio_level;
    if stride > u8::MAX - step {
        assert forall|j: int| 0 <= j < kernel@.ready.len() implies stride <= kernel@.stride_at(
            j,
        ) by {}
        assert(kernel@.ready.contains(pid));
        kernel.rebase(stride);
    }
    let ghost settled = kernel@;
    assert(settled == old(kernel)@.settled());
    assert(settled.live(pid));
    assert(settled.tasks[pid].prio_level == prio_level);
    assert(settled.tasks[pid].stride + step <= u8::MAX);
    kernel.ready_queue.remove(i);
    match &mut kernel.tasks[pid] {
        Some(task) => {
            task.task_status = TaskStatus::Running;
            task.stride = task.stride + step;
            if task.start_time < 0 {
                task.start_time = if now_us <= isize::MAX as usize {
                    now_us as isize
                } else {
                    isize::MAX
                };
            }
        },
        None => {},
    }
    kernel.processor.set_current(pid);
    proof {
        lemma_dispatched_wf(old(kernel)@, now_us);
        assert(kernel@.tasks =~= old(kernel)@.dispatched(now_us).tasks);
    }
    Some(pid)
}

/// Get current task through take, leaving a None in its place. The task
/// keeps its running status: the caller decides what becomes of it.
pub fn take_current_task(kernel: &mut Kernel) -> (task: Option<usize>)
    requires
        old(kernel).wf(),
    ensures
        task == old(kernel)@.current,
        final(kernel)@ == old(kernel)@.released(),
        final(kernel)@.inv(task),
{
    proof {
        lemma_released_inv(kernel@);
    }
    kernel.processor.take_current()
}

/// Get the current task
pub fn current_task(kernel: &Kernel) -> (task: Option<&TaskControlBlock>)
    requires
        kernel.wf(),
    ensures
        task is Some <==> kernel@.current is Some,
        task is Some ==> task->0@ == kernel@.cur_task(),
{
    match kernel.processor.current() {
        Some(pid) => kernel.task(pid),
        None => None,
    }
}

/// Get the mutable reference to trap context of current task. What the
/// caller writes through it becomes the task's saved registers.
pub fn current_trap_cx(kernel: &mut Kernel) -> (cx: &mut TrapContext)
    requires
        old(kernel).wf(),
        old(kernel)@.current is Some,
    ensures
        cx@ == old(kernel)@.cur_task().trap_cx,
        final(kernel)@ == old(kernel)@.with_trap_cx(final(cx)@),
        final(kernel).wf(),
{
    let ghost s = kernel@;
    assert(s.live(s.cur()));
    let cur = kernel.processor.current().unwrap();
    let task = kernel.tasks[cur].as_mut().unwrap();
    let cx = &mut task.trap_cx;
    proof {
        let u = s.with_trap_cx(final(cx)@);
        lemma_with_task_inv(s, u.tasks[cur], s.current);
        assert(after_borrow(*kernel)@.tasks =~= u.tasks);
    }
    cx
}

/// The running task gives up the processor: it becomes ready and joins the
/// end of the ready queue.
pub fn suspend_current_and_run_next(kernel: &mut Kernel)
    requires
        old(kernel).wf(),
        old(kernel)@.current is Some,
    ensures
        final(kernel).wf(),
        final(kernel)@ == old(kernel)@.yielded(),
{
    let pid = match take_current_task(kernel) {
        Some(pid) => pid,
        None => {
            return ;
        },
    };
    assert(old(kernel)@.live(pid));
    match &mut kernel.tasks[pid] {
        Some(task) => {
            task.task_status = TaskStatus::Ready;
        },
        None => {},
    }
    kernel.ready_queue.push(pid);
    proof {
        lemma_yielded_wf(old(kernel)@);
        assert(kernel@.tasks =~= old(kernel)@.yielded().tasks);
    }
}

/// The running task exits with code `exit_code`: it becomes a zombie, its
/// address space is given back, the first process adopts its children, and
/// the processor is free for the next task.
pub fn exit_current_and_run_next(kernel: &mut Kernel, exit_code: i32)
    requires
        old(kernel).wf(),
        old(kernel)@.current is Some,
    ensures
        final(kernel).wf(),
        final(kernel)@ == old(kernel)@.exited(exit_code),
{
    let pid = match take_current_task(kernel) {
        Some(pid) => pid,
        None => {
            return ;
        },
    };
    let ghost s = old(kernel)@;
    assert(s.live(pid));
    assert(s.live(INIT_PID));
    let mut kids: Vec<usize> = Vec::new();
    match &mut kernel.tasks[pid] {
        Some(task) => {
            task.task_status = TaskStatus::Zombie;
            task.exit_code = exit_code;
            task.memory_set.recycle();
            if pid != INIT_PID {
                std::mem::swap(&mut kids, &mut task.children);
            }
        },
        None => {},
    }
    proof {
        lemma_exited_wf(s, exit_code);
    }
    if pid == INIT_PID {
        assert(kernel@.tasks =~= s.exited(exit_code).tasks);
        return ;
    }
    assert(kids@ == s.cur_task().children);
    let ghost gone = TaskView { children: Seq::empty(), ..s.zombie(exit_code) };
    let mut j: usize = 0;
    while j < kids.len()
        invariant
            s.wf(),
            s.current == Some(pid),
            pid != INIT_PID,
            j <= kids.len(),
            kids@ == s.cur_task().children,
            kernel@.ready == s.ready,
            kernel@.current is None,
            forall|q: usize| #[trigger] kernel@.live(q) ==> s.live(q),
            forall|q: usize| #[trigger]
                s.live(q) ==> kernel@.live(q) && kernel@.tasks[q] == (if q == pid {
                    gone
                } else if kids@.take(j as int).contains(q) {
                    TaskView { parent: Some(INIT_PID), ..s.tasks[q] }
                } else {
                    s.tasks[q]
                }),
        decreases kids.len() - j,
    {
        let child = kids[j];
        let ghost before = kernel@;
        proof {
            assert(s.live(pid));
            assert(s.is_child(pid, child));
            assert(s.live(child));
            assert(before.live(child));
            assert(!kids@.take(j as int).contains(child)) by {
                if kids@.take(j as int).contains(child) {
                    let k = choose|k: int| 0 <= k < j && kids@.take(j as int)[k] == child;
                    assert(kids@[k] == kids@[j as int]);
                }
            }
        }
        match &mut kernel.tasks[child] {
            Some(task) => {
                task.parent = Some(INIT_PID);
            },
            None => {},
        }
        j += 1;
        proof {
            let taken = kids@.take(j as int);
            let taken_before = kids@.take(j - 1);
            assert(taken =~= taken_before.push(child));
            assert forall|q: usize| #[trigger] kernel@.live(q) implies s.live(q) by {
                assert(before.live(q));
            }
            assert forall|q: usize| #[trigger] s.live(q) implies kernel@.live(q)
                && kernel@.tasks[q] == (if q == pid {
                gone
            } else if taken.contains(q) {
                TaskView { parent: Some(INIT_PID), ..s.tasks[q] }
            } else {
                s.tasks[q]
            }) by {
                assert(before.live(q));
                if q == child {
                    assert(taken[j - 1] == child);
                } else {
                    if taken.contains(q) {
                        let k = choose|k: int| 0 <= k < taken.len() && taken[k] == q;
                        assert(taken_before[k] == q);
                    }
                    if taken_before.contains(q) {
                        let k = choose|k: int| 0 <= k < taken_before.len() && taken_before[k] == q;
                        assert(taken[k] == q);
                    }
                }
            }
        }
    }
    let ghost before = kernel@;
    proof {
        assert(kids@.take(kids@.len() as int) =~= kids@);
        assert(before.live(INIT_PID));
        assert(!kids@.contains(INIT_PID)) by {
            if kids@.contains(INIT_PID) {
                assert(s.is_child(pid, INIT_PID));
            }
        }
    }
    match &mut kernel.tasks[INIT_PID] {
        Some(init) => {
            init.children.append(&mut kids);
        },
        None => {},
    }
    proof {
        let u = s.exited(exit_code);
        assert forall|q: usize| kernel@.tasks.dom().contains(q) == u.tasks.dom().contains(q) by {
            if kernel@.tasks.dom().contains(q) {
                assert(before.live(q));
            }
            if u.tasks.dom().contains(q) {
                assert(s.live(q));
                assert(before.live(q));
            }
        }
        assert forall|q: usize| kernel@.tasks.dom().contains(q) implies kernel@.tasks[q]
            == u.tasks[q] by {
            assert(before.live(q));
            assert(s.live(q));
        }
        assert(kernel@.tasks =~= u.tasks);
    }
}

impl Kernel {
    /// The smallest pid that no task has.
    fn first_free_pid(&self) -> (pid: usize)
        ensures
            self@.is_next_pid(pid),
            pid <= self.tasks@.len(),
    {
        let mut i: usize = 0;
        while i < self.tasks.len()
            invariant
                i <= self.tasks.len(),
                forall|q: usize| q < i ==> #[trigger] self@.live(q),
            decreases self.tasks.len() - i,
        {
            if self.tasks[i].is_none() {
                return i;
            }
            i += 1;
        }
        i
    }

    /// Puts `task` into the free slot `pid`.
    fn install(&mut self, pid: usize, task: TaskControlBlock)
        requires
            !old(self)@.live(pid),
            pid <= old(self).tasks@.len(),
        ensures
            final(self)@ == (KernelView {
                tasks: old(self)@.tasks.insert(pid, task@),
                ..old(self)@
            }),
    {
        if pid == self.tasks.len() {
            self.tasks.push(Some(task));
        } else {
            self.tasks[pid] = Some(task);
        }
        assert(self@.tasks =~= old(self)@.tasks.insert(pid, task@));
    }
}

/// The running task forks: a child with a private copy of its address
/// space and of its registers, the result register cleared, joins the ready
/// queue. Returns the child's pid, or `None`, changing nothing, when no pid
/// is free.
pub fn fork(kernel: &mut Kernel) -> (child: Option<usize>)
    requires
        old(kernel).wf(),
        old(kernel)@.current is Some,
    ensures
        final(kernel).wf(),
        final(kernel)@ == old(kernel)@.forked(),
        child is Some <==> old(kernel)@.can_create(),
        child is Some ==> child->0 == old(kernel)@.next_pid(),
{
    let ghost s = kernel@;
    let pid = kernel.first_free_pid();
    proof {
        lemma_next_pid(s, pid);
        assert forall|p: usize| s.is_next_pid(p) implies p == pid by {
            lemma_next_pid(s, p);
        }
    }
    if pid > isize::MAX as usize {
        return None;
    }
    let cur = match kernel.processor.current() {
        Some(cur) => cur,
        None => {
            return None;
        },
    };
    assert(s.live(cur));
    let forked = match &mut kernel.tasks[cur] {
        Some(parent) => {
            let mut task = parent.fork(pid);
            task.task_status = TaskStatus::Ready;
            parent.children.push(pid);
            Some(task)
        },
        None => None,
    };
    let ghost mid = kernel@;
    assert(mid.tasks =~= s.tasks.insert(
        cur,
        TaskView { children: s.cur_task().children.push(pid), ..s.cur_task() },
    ));
    match forked {
        Some(task) => {
            kernel.install(pid, task);
        },
        None => {},
    }
    kernel.ready_queue.push(pid);
    proof {
        lemma_forked_wf(s, pid);
        assert(kernel@.tasks =~= s.forked_as(pid).tasks);
    }
    Some(pid)
}

/// The running task replaces its program by `image`, what the loader found
/// under the name the task gave. Returns 0, or -1, changing nothing, when
/// the loader found no such program.
pub fn exec(kernel: &mut Kernel, image: Option<&ProgramImage>) -> (r: isize)
    requires
        old(kernel).wf(),
        old(kernel)@.current is Some,
        image is Some ==> image->0.wf(),
    ensures
        final(kernel).wf(),
        image is Some ==> r == 0 && final(kernel)@ == old(kernel)@.execed(image->0@),
        image is None ==> r == -1 && final(kernel)@ == old(kernel)@,
{
    let image = match image {
        Some(image) => image,
        None => {
            return -1;
        },
    };
    let cur = match kernel.processor.current() {
        Some(cur) => cur,
        None => {
            return -1;
        },
    };
    let ghost s = kernel@;
    assert(s.live(cur));
    match &mut kernel.tasks[cur] {
        Some(task) => {
            task.exec(image);
        },
        None => {},
    }
    proof {
        lemma_with_task_inv(s, s.cur_task().execed(image@), s.current);
        assert(kernel@.tasks =~= s.execed(image@).tasks);
    }
    0
}

/// The running task spawns a child that runs `image`: a fork whose child
/// at once replaces its program. Returns the child's pid, or -1, changing
/// nothing, when the loader found no such program or no pid is free.
pub fn spawn(kernel: &mut Kernel, image: Option<&ProgramImage>) -> (r: isize)
    requires
        old(kernel).wf(),
        old(kernel)@.current is Some,
        image is Some ==> image->0.wf(),
    ensures
        final(kernel).wf(),
        image is Some ==> final(kernel)@ == old(kernel)@.spawned(image->0@),
        image is Some && old(kernel)@.can_create() ==> r == old(kernel)@.next_pid(),
        image is None ==> final(kernel)@ == old(kernel)@,
        image is None || !old(kernel)@.can_create() ==> r == -1,
{
    let image = match image {
        Some(image) => image,
        None => {
            return -1;
        },
    };
    let ghost s = kernel@;
    let pid = match fork(kernel) {
        Some(pid) => pid,
        None => {
            return -1;
        },
    };
    let ghost mid = kernel@;
    proof {
        assert(s.is_next_pid(pid));
        assert(mid.live(pid));
    }
    match &mut kernel.tasks[pid] {
        Some(task) => {
            task.exec(image);
        },
        None => {},
    }
    proof {
        lemma_with_task_inv(mid, mid.tasks[pid].execed(image@), mid.current);
        assert(kernel@.tasks =~= s.spawned(image@).tasks);
    }
    pid as isize
}

/// The running task waits for a child: any child when `pid` is -1, else
/// the child with that pid. Returns -1 when it has no such child and -2 when
/// it has one but none that is a zombie yet. Otherwise collects the first
/// such zombie: takes it out of the kernel, stores its exit code in
/// `exit_code` and returns its pid.
pub fn waitpid(kernel: &mut Kernel, pid: isize, exit_code: &mut i32) -> (r: isize)
    requires
        old(kernel).wf(),
        old(kernel)@.current is Some,
    ensures
        final(kernel).wf(),
        r == old(kernel)@.wait_result(pid),
        final(kernel)@ == old(kernel)@.waited(pid),
        old(kernel)@.has_zombie_match(pid) ==> *final(exit_code) == old(kernel)@.tasks[old(
            kernel,
        )@.wait_child(pid)].exit_code,
        !old(kernel)@.has_zombie_match(pid) ==> *final(exit_code) == *old(exit_code),
{
    let cur = match kernel.processor.current() {
        Some(cur) => cur,
        None => {
            return -1;
        },
    };
    let ghost s = kernel@;
    assert(s.live(cur));
    let mut matched = false;
    let mut found: Option<usize> = None;
    let mut i: usize = 0;
    let count = match &kernel.tasks[cur] {
        Some(task) => task.children.len(),
        None => 0,
    };
    while i < count && found.is_none()
        invariant
            kernel@ == s,
            s.wf(),
            s.current == Some(cur),
            cur < kernel.tasks@.len(),
            kernel.tasks@[cur as int] is Some,
            count == s.cur_task().children.len(),
            i <= count,
            found is None ==> forall|j: int| 0 <= j < i ==> !s.is_zombie_match(pid, j),
            found is None ==> (matched <==> exists|j: int|
                0 <= j < i && KernelView::wait_accepts(pid, #[trigger] s.cur_task().children[j])),
            found is Some ==> s.is_first_zombie_match(pid, found->0 as int),
        decreases count - i + (if found is None { 1int } else { 0int }),
    {
        let child = match &kernel.tasks[cur] {
            Some(task) => task.children[i],
            None => 0,
        };
        proof {
            assert(s.live(cur));
            assert(s.cur_task().children[i as int] == child);
            assert(s.is_child(cur, child));
            assert(s.live(child));
        }
        if pid == -1 || (pid >= 0 && pid as usize == child) {
            matched = true;
            let zombie = match &kernel.tasks[child] {
                Some(task) => task.task_status == TaskStatus::Zombie,
                None => false,
            };
            if zombie {
                found = Some(i);
            }
        }
        if found.is_none() {
            i += 1;
        }
    }
    let at = match found {
        Some(at) => at,
        None => {
            proof {
                if s.has_match(pid) {
                    let j = choose|j: int|
                        0 <= j < s.cur_task().children.len() && KernelView::wait_accepts(
                            pid,
                            #[trigger] s.cur_task().children[j],
                        );
                    assert(matched);
                }
                if matched {
                    assert(s.has_match(pid));
                }
            }
            return if matched {
                -2
            } else {
                -1
            };
        },
    };
    proof {
        assert(s.has_zombie_match(pid));
        assert(s.has_match(pid));
        let c = s.first_zombie_match(pid);
        assert(s.is_first_zombie_match(pid, c));
        assert(c == at) by {
            if c < at {
                assert(!s.is_zombie_match(pid, c));
            }
            if at < c {
                assert(!s.is_zombie_match(pid, at as int));
            }
        }
        lemma_reaped_wf(s, at as int);
        assert(s.is_child(cur, s.cur_task().children[at as int]));
        assert(s.live(s.cur_task().children[at as int]));
    }
    let child = match &mut kernel.tasks[cur] {
        Some(task) => task.children.remove(at),
        None => 0,
    };
    match &kernel.tasks[child] {
        Some(task) => {
            *exit_code = task.exit_code;
        },
        None => {},
    }
    kernel.tasks[child] = None;
    proof {
        assert(kernel@.tasks =~= s.reaped(at as int).tasks);
    }
    child as isize
}

/// Get the status of the running task, which is always running
pub fn current_status(kernel: &Kernel) -> (status: TaskStatus)
    requires
        kernel.wf(),
        kernel@.current is Some,
    ensures
        status == kernel@.cur_task().task_status,
        status is Running,
{
    assert(kernel@.live(kernel@.cur()));
    match current_task(kernel) {
        Some(task) => task.task_status,
        None => TaskStatus::Running,
    }
}

/// Whether page `vpn` is mapped in the address space of the running task
pub fn is_map_vpn_current(kernel: &Kernel, vpn: usize) -> (mapped: bool)
    requires
        kernel.wf(),
        kernel@.current is Some,
    ensures
        mapped == kernel@.cur_task().memory_set.mapped(vpn),
{
    match current_task(kernel) {
        Some(task) => task.memory_set.is_mapped(vpn),
        None => false,
    }
}

/// Adds a framed area over `[start_va, end_va)` to the address space of the
/// running task, with the rights that the low three bits of `perm` encode
/// and user access. The pages must be free.
pub fn add_maparea(kernel: &mut Kernel, start_va: usize, end_va: usize, perm: usize)
    requires
        old(kernel).wf(),
        old(kernel)@.current is Some,
        start_va <= end_va,
        old(kernel)@.cur_task().memory_set.range_free(page_floor(start_va), page_ceil(end_va)),
    ensures
        final(kernel).wf(),
        final(kernel)@ == old(kernel)@.with_task(
            old(kernel)@.cur_task().with_memory_set(
                old(kernel)@.cur_task().memory_set.with_area(
                    MapArea {
                        start_vpn: page_floor(start_va),
                        end_vpn: page_ceil(end_va),
                        perm: port_permission(perm),
                    },
                ),
            ),
        ),
{
    let permission = MapPermission::from_bits(perm);
    let cur = match kernel.processor.current() {
        Some(cur) => cur,
        None => {
            return ;
        },
    };
    let ghost s = kernel@;
    assert(s.live(cur));
    match &mut kernel.tasks[cur] {
        Some(task) => {
            task.memory_set.insert_framed_area(start_va, end_va, permission);
        },
        None => {},
    }
    proof {
        let t = s.cur_task().with_memory_set(
            s.cur_task().memory_set.with_area(
                MapArea {
                    start_vpn: page_floor(start_va),
                    end_vpn: page_ceil(end_va),
                    perm: port_permission(perm),
                },
            ),
        );
        lemma_with_task_inv(s, t, s.current);
        assert(kernel@.tasks =~= s.with_task(t).tasks);
    }
}

/// Takes out of the address space of the running task the first framed
/// area whose bounds are exactly the pages of `[start_va, end_va)`. Returns
/// 0, or -1, changing nothing, when there is no such area.
pub fn remove_mem(kernel: &mut Kernel, start_va: usize, end_va: usize) -> (r: isize)
    requires
        old(kernel).wf(),
        old(kernel)@.current is Some,
    ensures
        final(kernel).wf(),
        old(kernel)@.cur_task().memory_set.has_spanning(page_floor(start_va), page_ceil(end_va))
            ==> r == 0 && final(kernel)@ == old(kernel)@.with_task(
            old(kernel)@.cur_task().with_memory_set(
                old(kernel)@.cur_task().memory_set.without_area(
                    old(kernel)@.cur_task().memory_set.first_spanning(
                        page_floor(start_va),
                        page_ceil(end_va),
                    ),
                ),
            ),
        ),
        !old(kernel)@.cur_task().memory_set.has_spanning(page_floor(start_va), page_ceil(end_va))
            ==> r == -1 && final(kernel)@ == old(kernel)@,
{
    let cur = match kernel.processor.current() {
        Some(cur) => cur,
        None => {
            return -1;
        },
    };
    let ghost s = kernel@;
    assert(s.live(cur));
    let r = match &mut kernel.tasks[cur] {
        Some(task) => task.memory_set.remove_area(start_va, end_va),
        None => -1,
    };
    proof {
        let t = kernel@.tasks[cur];
        lemma_with_task_inv(s, t, s.current);
        assert(kernel@.tasks =~= s.with_task(t).tasks);
        if r != 0 {
            assert(s.with_task(t).tasks =~= s.tasks);
        }
    }
    r
}

/// Maps `[start_va, end_va)` in the address space of the running task with
/// the rights that `port` encodes, or refuses and changes nothing.
pub fn map_current(kernel: &mut Kernel, start_va: usize, end_va: usize, port: usize) -> (r:
    Result<(), MapError>)
    requires
        old(kernel).wf(),
        old(kernel)@.current is Some,
    ensures
        final(kernel).wf(),
        final(kernel)@ == old(kernel)@.mapped(start_va, end_va, port),
        match old(kernel)@.cur_task().memory_set.map_outcome(start_va, end_va, port) {
            Ok(_) => r is Ok,
            Err(e) => r == Err::<(), MapError>(e),
        },
{
    let cur = match kernel.processor.current() {
        Some(cur) => cur,
        None => {
            return Ok(());
        },
    };
    let ghost s = kernel@;
    assert(s.live(cur));
    let r = match &mut kernel.tasks[cur] {
        Some(task) => task.memory_set.map_range(start_va, end_va, port),
        None => Ok(()),
    };
    proof {
        let t = s.cur_task().with_memory_set(
            s.cur_task().memory_set.map_range(start_va, end_va, port),
        );
        lemma_with_task_inv(s, t, s.current);
        assert(kernel@.tasks =~= s.with_task(t).tasks);
    }
    r
}

/// Unmaps `[start_va, end_va)` in the address space of the running task if
/// it is exactly one framed area, or refuses and changes nothing.
pub fn unmap_current(kernel: &mut Kernel, start_va: usize, end_va: usize) -> (r: Result<
    (),
    MapError,
>)
    requires
        old(kernel).wf(),
        old(kernel)@.current is Some,
    ensures
        final(kernel).wf(),
        final(kernel)@ == old(kernel)@.unmapped(start_va, end_va),
        match old(kernel)@.cur_task().memory_set.unmap_outcome(start_va, end_va) {
            Ok(_) => r is Ok,
            Err(e) => r == Err::<(), MapError>(e),
        },
{
    let cur = match kernel.processor.current() {
        Some(cur) => cur,
        None => {
            return Ok(());
        },
    };
    let ghost s = kernel@;
    assert(s.live(cur));
    let r = match &mut kernel.tasks[cur] {
        Some(task) => task.memory_set.unmap_range(start_va, end_va),
        None => Ok(()),
    };
    proof {
        let t = s.cur_task().with_memory_set(
            s.cur_task().memory_set.unmap_range(start_va, end_va),
        );
        lemma_with_task_inv(s, t, s.current);
        assert(kernel@.tasks =~= s.with_task(t).tasks);
    }
    r
}

/// Moves the end of the running task's heap by `delta` bytes and returns
/// where it was, or returns `None` and changes nothing when the move is not
/// allowed.
pub fn change_program_brk(kernel: &mut Kernel, delta: i32) -> (old_brk: Option<usize>)
    requires
        old(kernel).wf(),
        old(kernel)@.current is Some,
    ensures
        final(kernel).wf(),
        final(kernel)@ == old(kernel)@.brk_changed(delta),
        old(kernel)@.cur_task().memory_set.brk_allowed(delta) ==> old_brk == Some(
            old(kernel)@.cur_task().memory_set.program_brk,
        ),
        !old(kernel)@.cur_task().memory_set.brk_allowed(delta) ==> old_brk is None,
{
    let cur = match kernel.processor.current() {
        Some(cur) => cur,
        None => {
            return None;
        },
    };
    let ghost s = kernel@;
    assert(s.live(cur));
    let r = match &mut kernel.tasks[cur] {
        Some(task) => task.change_program_brk(delta),
        None => None,
    };
    proof {
        let t = s.cur_task().change_program_brk(delta);
        lemma_with_task_inv(s, t, s.current);
        assert(kernel@.tasks =~= s.with_task(t).tasks);
    }
    r
}

/// Sets the priority of the running task to `level` and returns it, or
/// returns -1 and changes nothing when `level` is not a priority a task may
/// have.
pub fn set_priority(kernel: &mut Kernel, level: isize) -> (r: isize)
    requires
        old(kernel).wf(),
        old(kernel)@.current is Some,
    ensures
        final(kernel).wf(),
        final(kernel)@ == old(kernel)@.with_priority(level),
        priority_valid(level) ==> r == level,
        !priority_valid(level) ==> r == -1,
{
    let cur = match kernel.processor.current() {
        Some(cur) => cur,
        None => {
            return -1;
        },
    };
    let ghost s = kernel@;
    assert(s.live(cur));
    let r = match &mut kernel.tasks[cur] {
        Some(task) => task.set_priority(level),
        None => Err(crate::task::InvalidPriority),
    };
    proof {
        let t = s.cur_task().with_priority(level);
        lemma_with_task_inv(s, t, s.current);
        assert(kernel@.tasks =~= s.with_task(t).tasks);
    }
    match r {
        Ok(_) => level,
        Err(_) => -1,
    }
}

/// Milliseconds, rounded up, that the running task has been started for,
/// at clock reading `now_us`
pub fn get_current_running_time(kernel: &Kernel, now_us: usize) -> (ms: usize)
    requires
        kernel.wf(),
        kernel@.current is Some,
    ensures
        ms == elapsed_ms(kernel@.cur_task().start_time, now_us),
{
    assert(kernel@.live(kernel@.cur()));
    match current_task(kernel) {
        Some(task) => task.elapsed_running_time(now_us),
        None => 0,
    }
}

/// The system call counts of the running task, by bucket
pub fn get_current_syscalls_cnt(kernel: &Kernel) -> (counts: [u32; SYSCALL_COUNT])
    requires
        kernel.wf(),
        kernel@.current is Some,
    ensures
        counts@ == kernel@.cur_task().syscalls_cnt,
{
    match current_task(kernel) {
        Some(task) => task.syscalls_cnt,
        None => [0u32; SYSCALL_COUNT],
    }
}

/// Counts one invocation of system call `curr_syscall_id` for the running
/// task; a call that has no bucket is not counted.
pub fn add_current_syscall_cnt(kernel: &mut Kernel, curr_syscall_id: usize)
    requires
        old(kernel).wf(),
        old(kernel)@.current is Some,
    ensures
        final(kernel).wf(),
        final(kernel)@ == old(kernel)@.recorded(curr_syscall_id),
{
    let cur = match kernel.processor.current() {
        Some(cur) => cur,
        None => {
            return ;
        },
    };
    let ghost s = kernel@;
    assert(s.live(cur));
    match &mut kernel.tasks[cur] {
        Some(task) => {
            task.record_syscall(curr_syscall_id);
        },
        None => {},
    }
    proof {
        let t = s.cur_task().recorded(curr_syscall_id);
        lemma_with_task_inv(s, t, s.current);
        assert(kernel@.tasks =~= s.with_task(t).tasks);
    }
}

} // verus!
