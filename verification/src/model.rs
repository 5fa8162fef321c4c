//! The kernel as a mathematical state: the tasks by pid, the ready queue and
//! the running task, with the transitions that the kernel's operations
//! perform and the invariant that they keep.

use vstd::prelude::*;
use crate::config::INIT_PID;
use crate::loader::ProgramImageView;
use crate::mm::MemorySetView;
use crate::task::{stamp_of, stride_step, TaskStatus, TaskView};

verus! {

/// Mathematical content of the kernel's process state.
#[verifier::ext_equal]
pub struct KernelView {
    /// The tasks that exist, by pid.
    pub tasks: Map<usize, TaskView>,
    /// Pids of the tasks that wait for the processor, in arrival order.
    pub ready: Seq<usize>,
    /// Pid of the task that holds the processor, if any.
    pub current: Option<usize>,
}

impl KernelView {
    /// The state before any process exists.
    pub open spec fn empty() -> KernelView {
        KernelView { tasks: Map::empty(), ready: Seq::empty(), current: None }
    }

    /// A task with pid `p` exists.
    pub open spec fn live(self, p: usize) -> bool {
        self.tasks.dom().contains(p)
    }

    /// Pid of the running task.
    pub open spec fn cur(self) -> usize {
        self.current->0
    }

    /// The running task.
    pub open spec fn cur_task(self) -> TaskView {
        self.tasks[self.current->0]
    }

    /// Task `p` lists `c` among its children.
    pub open spec fn is_child(self, p: usize, c: usize) -> bool {
        self.live(p) && self.tasks[p].children.contains(c)
    }

    /// Every task sits under its own pid, is well-formed, is ready, running
    /// or a zombie, and has a start time once it runs.
    pub open spec fn tasks_wf(self) -> bool {
        forall|p: usize| #[trigger]
            self.live(p) ==> {
                &&& self.tasks[p].pid == p
                &&& p <= isize::MAX
                &&& self.tasks[p].wf()
                &&& (self.tasks[p].task_status is Ready || self.tasks[p].task_status is Running
                    || self.tasks[p].task_status is Zombie)
                &&& (self.tasks[p].task_status is Running ==> self.tasks[p].start_time >= 0)
            }
    }

    /// Parents and children agree: a listed child exists and names the
    /// lister as its parent, a task with a parent is listed by it exactly
    /// once, the first process alone has no parent and exists as long as
    /// any task does, and a zombie other than the first process has handed
    /// its children on.
    pub open spec fn family_wf(self) -> bool {
        &&& forall|p: usize, c: usize| #[trigger]
            self.is_child(p, c) ==> self.live(c) && self.tasks[c].parent == Some(p)
        &&& forall|c: usize| #[trigger]
            self.live(c) && self.tasks[c].parent is Some ==> self.is_child(
                self.tasks[c].parent->0,
                c,
            )
        &&& forall|p: usize| #[trigger] self.live(p) ==> self.tasks[p].children.no_duplicates()
        &&& forall|p: usize| #[trigger]
            self.live(p) ==> (self.tasks[p].parent is None <==> p == INIT_PID)
        &&& forall|p: usize| #[trigger] self.live(p) ==> self.tasks[p].parent != Some(p)
        &&& forall|p: usize| #[trigger] self.live(p) ==> self.live(INIT_PID)
        &&& forall|p: usize| #[trigger]
            self.live(p) && p != INIT_PID && self.tasks[p].task_status is Zombie
                ==> self.tasks[p].children.len() == 0
    }

    /// The ready queue holds exactly the ready tasks, each once.
    pub open spec fn ready_wf(self) -> bool {
        &&& forall|i: int|
            0 <= i < self.ready.len() ==> self.live(#[trigger] self.ready[i])
                && self.tasks[self.ready[i]].task_status is Ready
        &&& self.ready.no_duplicates()
        &&& forall|p: usize| #[trigger]
            self.live(p) && self.tasks[p].task_status is Ready ==> self.ready.contains(p)
    }

    /// `running` is the one task whose status is running, or no task is
    /// running and `running` is `None`.
    pub open spec fn running_wf(self, running: Option<usize>) -> bool {
        &&& running is Some ==> self.live(running->0)
        &&& forall|p: usize| #[trigger]
            self.live(p) ==> (self.tasks[p].task_status is Running <==> running == Some(p))
    }

    /// The invariant of the kernel state, for a processor that may have been
    /// taken from the task `running` a moment ago.
    pub open spec fn inv(self, running: Option<usize>) -> bool {
        &&& self.tasks_wf()
        &&& self.family_wf()
        &&& self.ready_wf()
        &&& self.running_wf(running)
    }

    /// The invariant of the kernel state.
    pub open spec fn wf(self) -> bool {
        self.inv(self.current)
    }

    /// The state with task `t` put under its pid.
    pub open spec fn with_task(self, t: TaskView) -> KernelView {
        KernelView { tasks: self.tasks.insert(t.pid, t), ..self }
    }

    /// The state with the processor free.
    pub open spec fn released(self) -> KernelView {
        KernelView { current: None, ..self }
    }

    /// The state after the first process was created from `image`: it has
    /// pid 0, no parent, and waits in the ready queue.
    pub open spec fn booted(self, image: ProgramImageView) -> KernelView {
        KernelView {
            tasks: self.tasks.insert(
                INIT_PID,
                TaskView::fresh(INIT_PID, None, image).with_status(TaskStatus::Ready),
            ),
            ready: self.ready.push(INIT_PID),
            ..self
        }
    }

    /// The state after the running task gave up the processor: it is ready
    /// again and waits behind the others.
    pub open spec fn yielded(self) -> KernelView {
        KernelView {
            tasks: self.tasks.insert(self.cur(), self.cur_task().with_status(TaskStatus::Ready)),
            ready: self.ready.push(self.cur()),
            current: None,
        }
    }

    /// Stride of the task at position `i` of the ready queue.
    pub open spec fn stride_at(self, i: int) -> u8 {
        self.tasks[self.ready[i]].stride
    }

    /// Among the first `n` positions of the ready queue, `i` is the first
    /// that holds the smallest stride.
    pub open spec fn is_first_min(self, i: int, n: int) -> bool {
        &&& 0 <= i < n
        &&& forall|j: int| 0 <= j < n ==> self.stride_at(i) <= #[trigger] self.stride_at(j)
        &&& forall|j: int| 0 <= j < i ==> self.stride_at(i) < #[trigger] self.stride_at(j)
    }

    /// Position `i` of the ready queue holds the task to run next: none has
    /// a smaller stride, and every task before it has a larger one.
    pub open spec fn is_next(self, i: int) -> bool {
        self.is_first_min(i, self.ready.len() as int)
    }

    /// Position in the ready queue of the task to run next.
    pub open spec fn next_index(self) -> int {
        choose|i: int| self.is_next(i)
    }

    /// Pid of the task to run next.
    pub open spec fn next_task(self) -> usize {
        self.ready[self.next_index()]
    }

    /// The state with the stride of every ready task lowered by `base`.
    pub open spec fn rebased(self, base: u8) -> KernelView {
        KernelView {
            tasks: Map::new(
                |p: usize| self.live(p),
                |p: usize|
                    if self.ready.contains(p) {
                        TaskView {
                            stride: (self.tasks[p].stride - base) as u8,
                            ..self.tasks[p]
                        }
                    } else {
                        self.tasks[p]
                    },
            ),
            ..self
        }
    }

    /// Whether the stride of the task to run next can take one more step
    /// without leaving its range.
    pub open spec fn step_fits(self) -> bool {
        let t = self.tasks[self.next_task()];
        t.stride + stride_step(t.prio_level) <= u8::MAX
    }

    /// The state in which the next step fits: the state itself, or, where
    /// the stride of the next task has no room left, the state with all
    /// ready strides lowered by it, which keeps their order and distances.
    pub open spec fn settled(self) -> KernelView {
        if self.step_fits() {
            self
        } else {
            self.rebased(self.tasks[self.next_task()].stride)
        }
    }

    /// The state after the idle processor, at clock reading `now`, picked
    /// the next task: the task leaves the ready queue and runs, its stride
    /// advances by its step, and a first schedule stamps its start time.
    /// With nothing ready the state stays as it is.
    pub open spec fn dispatched(self, now: usize) -> KernelView {
        if self.ready.len() == 0 {
            self
        } else {
            let p = self.next_task();
            let t = self.settled().tasks[p];
            KernelView {
                tasks: self.settled().tasks.insert(
                    p,
                    TaskView {
                        task_status: TaskStatus::Running,
                        stride: (t.stride + stride_step(t.prio_level)) as u8,
                        start_time: if t.start_time < 0 {
                            stamp_of(now)
                        } else {
                            t.start_time
                        },
                        ..t
                    },
                ),
                ready: self.ready.remove(self.next_index()),
                current: Some(p),
            }
        }
    }

    /// The running task as a zombie: stopped with exit code `code`, its
    /// address space given back.
    pub open spec fn zombie(self, code: i32) -> TaskView {
        TaskView {
            task_status: TaskStatus::Zombie,
            exit_code: code,
            memory_set: MemorySetView::empty(),
            ..self.cur_task()
        }
    }

    /// The state after the running task exited with code `code`: it is a
    /// zombie with its address space given back, the first process has
    /// adopted its children behind its own, and the processor is free. Where
    /// the first process itself exits, its children stay with it.
    pub open spec fn exited(self, code: i32) -> KernelView {
        let p = self.cur();
        let kids = self.cur_task().children;
        if p == INIT_PID {
            KernelView { tasks: self.tasks.insert(p, self.zombie(code)), current: None, ..self }
        } else {
            KernelView {
                tasks: Map::new(
                    |q: usize| self.live(q),
                    |q: usize|
                        if q == p {
                            TaskView { children: Seq::empty(), ..self.zombie(code) }
                        } else if q == INIT_PID {
                            TaskView {
                                children: self.tasks[q].children + kids,
                                ..self.tasks[q]
                            }
                        } else if kids.contains(q) {
                            TaskView { parent: Some(INIT_PID), ..self.tasks[q] }
                        } else {
                            self.tasks[q]
                        },
                ),
                current: None,
                ..self
            }
        }
    }

    /// `p` is the pid the next new task gets: the smallest that no task has.
    pub open spec fn is_next_pid(self, p: usize) -> bool {
        &&& !self.live(p)
        &&& forall|q: usize| q < p ==> #[trigger] self.live(q)
    }

    /// The pid the next new task gets.
    pub open spec fn next_pid(self) -> usize {
        choose|p: usize| self.is_next_pid(p)
    }

    /// Whether a new task can be created: a pid is free that also fits the
    /// signed word in which system calls return it.
    pub open spec fn can_create(self) -> bool {
        exists|p: usize| self.is_next_pid(p) && p <= isize::MAX
    }

    /// The state after the running task forked a child with pid `c`: the
    /// child is the parent's last child and waits at the end of the ready
    /// queue.
    pub open spec fn forked_as(self, c: usize) -> KernelView {
        let t = self.cur_task();
        KernelView {
            tasks: self.tasks.insert(
                t.pid,
                TaskView { children: t.children.push(c), ..t },
            ).insert(c, t.forked(c).with_status(TaskStatus::Ready)),
            ready: self.ready.push(c),
            ..self
        }
    }

    /// The state after a fork by the running task, which does nothing when
    /// no task can be created.
    pub open spec fn forked(self) -> KernelView {
        if self.can_create() {
            self.forked_as(self.next_pid())
        } else {
            self
        }
    }

    /// The state after task `p` replaced its program by `image`.
    pub open spec fn execed_in(self, p: usize, image: ProgramImageView) -> KernelView {
        self.with_task(self.tasks[p].execed(image))
    }

    /// The state after the running task replaced its program by `image`.
    pub open spec fn execed(self, image: ProgramImageView) -> KernelView {
        self.execed_in(self.cur(), image)
    }

    /// The state after the running task spawned a child that runs `image`:
    /// a fork, and the new program in the child. Nothing happens when no
    /// task can be created.
    pub open spec fn spawned(self, image: ProgramImageView) -> KernelView {
        if self.can_create() {
            self.forked().execed_in(self.next_pid(), image)
        } else {
            self
        }
    }

    /// Whether a `waitpid` for `pid` accepts child `c`: -1 accepts any.
    pub open spec fn wait_accepts(pid: isize, c: usize) -> bool {
        pid == -1 || pid == c
    }

    /// The running task has a child that a `waitpid` for `pid` accepts.
    pub open spec fn has_match(self, pid: isize) -> bool {
        exists|i: int|
            0 <= i < self.cur_task().children.len() && Self::wait_accepts(
                pid,
                #[trigger] self.cur_task().children[i],
            )
    }

    /// Child number `i` of the running task is accepted by a `waitpid` for
    /// `pid` and is a zombie.
    pub open spec fn is_zombie_match(self, pid: isize, i: int) -> bool {
        &&& 0 <= i < self.cur_task().children.len()
        &&& Self::wait_accepts(pid, self.cur_task().children[i])
        &&& self.tasks[self.cur_task().children[i]].task_status is Zombie
    }

    /// The running task has a zombie child that a `waitpid` for `pid`
    /// accepts.
    pub open spec fn has_zombie_match(self, pid: isize) -> bool {
        exists|i: int| self.is_zombie_match(pid, i)
    }

    /// Child number `i` is the first zombie child that a `waitpid` for `pid`
    /// accepts.
    pub open spec fn is_first_zombie_match(self, pid: isize, i: int) -> bool {
        &&& self.is_zombie_match(pid, i)
        &&& forall|j: int| 0 <= j < i ==> !self.is_zombie_match(pid, j)
    }

    /// Number, among the running task's children, of the first zombie that
    /// a `waitpid` for `pid` accepts.
    pub open spec fn first_zombie_match(self, pid: isize) -> int {
        choose|i: int| self.is_first_zombie_match(pid, i)
    }

    /// Pid of the child that a `waitpid` for `pid` collects.
    pub open spec fn wait_child(self, pid: isize) -> usize {
        self.cur_task().children[self.first_zombie_match(pid)]
    }

    /// What a `waitpid` for `pid` returns: -1 when no child is accepted, -2
    /// when none of the accepted ones is a zombie yet, and else the pid of
    /// the first accepted zombie.
    pub open spec fn wait_result(self, pid: isize) -> int {
        if !self.has_match(pid) {
            -1
        } else if !self.has_zombie_match(pid) {
            -2
        } else {
            self.wait_child(pid) as int
        }
    }

    /// The state after child number `i` of the running task was collected:
    /// the child is gone, from the tasks and from its parent's children.
    pub open spec fn reaped(self, i: int) -> KernelView {
        let t = self.cur_task();
        KernelView {
            tasks: self.tasks.remove(t.children[i]).insert(
                t.pid,
                TaskView { children: t.children.remove(i), ..t },
            ),
            ..self
        }
    }

    /// The state after a `waitpid` for `pid` by the running task.
    pub open spec fn waited(self, pid: isize) -> KernelView {
        if self.has_zombie_match(pid) {
            self.reaped(self.first_zombie_match(pid))
        } else {
            self
        }
    }

    /// The state after one invocation of system call `id` was counted for
    /// the running task.
    pub open spec fn recorded(self, id: usize) -> KernelView {
        self.with_task(self.cur_task().recorded(id))
    }

    /// The state after the running task asked for priority `level`.
    pub open spec fn with_priority(self, level: isize) -> KernelView {
        self.with_task(self.cur_task().with_priority(level))
    }

    /// The state after the running task asked to move the end of its heap
    /// by `delta` bytes.
    pub open spec fn brk_changed(self, delta: i32) -> KernelView {
        self.with_task(self.cur_task().change_program_brk(delta))
    }

    /// The state after the running task asked to map `[start_va, end_va)`
    /// with permission word `port`.
    pub open spec fn mapped(self, start_va: usize, end_va: usize, port: usize) -> KernelView {
        self.with_task(
            self.cur_task().with_memory_set(
                self.cur_task().memory_set.map_range(start_va, end_va, port),
            ),
        )
    }

    /// The state after the running task asked to unmap `[start_va, end_va)`.
    pub open spec fn unmapped(self, start_va: usize, end_va: usize) -> KernelView {
        self.with_task(
            self.cur_task().with_memory_set(
                self.cur_task().memory_set.unmap_range(start_va, end_va),
            ),
        )
    }

    /// The state with the saved registers of the running task replaced.
    pub open spec fn with_trap_cx(self, trap_cx: crate::task::TrapContextView) -> KernelView {
        self.with_task(TaskView { trap_cx, ..self.cur_task() })
    }
}

/// Whether two tasks agree on everything the kernel invariant relates to
/// other tasks: pid, status, parent, children and start time.
pub open spec fn same_links(a: TaskView, b: TaskView) -> bool {
    &&& a.pid == b.pid
    &&& a.task_status == b.task_status
    &&& a.parent == b.parent
    &&& a.children == b.children
    &&& a.start_time == b.start_time
}

/// Replacing a task by a well-formed one with the same links keeps the
/// invariant.
pub proof fn lemma_with_task_inv(s: KernelView, t: TaskView, running: Option<usize>)
    requires
        s.inv(running),
        s.live(t.pid),
        t.wf(),
        same_links(s.tasks[t.pid], t),
    ensures
        s.with_task(t).inv(running),
{
    let u = s.with_task(t);
    assert forall|p: usize| #[trigger] u.live(p) implies s.live(p) by {}
    assert forall|p: usize, c: usize| #[trigger] u.is_child(p, c) implies u.live(c)
        && u.tasks[c].parent == Some(p) by {
        assert(s.is_child(p, c));
    }
    assert forall|c: usize| #[trigger] u.live(c) && u.tasks[c].parent is Some implies u.is_child(
        u.tasks[c].parent->0,
        c,
    ) by {
        assert(s.live(c));
        assert(s.is_child(s.tasks[c].parent->0, c));
    }
    assert forall|i: int| 0 <= i < u.ready.len() implies u.live(#[trigger] u.ready[i])
        && u.tasks[u.ready[i]].task_status is Ready by {
        assert(s.live(s.ready[i]));
    }
    assert forall|p: usize| #[trigger]
        u.live(p) && u.tasks[p].task_status is Ready implies u.ready.contains(p) by {
        assert(s.live(p));
    }
}

/// Creating the first process in the empty state establishes the invariant.
pub proof fn lemma_booted_wf(s: KernelView, image: ProgramImageView)
    requires
        s.wf(),
        !s.live(INIT_PID),
        image.memory_set.wf(),
    ensures
        s == KernelView::empty(),
        s.booted(image).wf(),
{
    assert forall|p: usize| !s.tasks.dom().contains(p) by {
        if s.live(p) {
            assert(s.live(INIT_PID));
        }
    }
    assert(s.tasks =~= Map::empty());
    assert(s.ready =~= Seq::empty()) by {
        if s.ready.len() > 0 {
            assert(s.live(s.ready[0]));
        }
    }
    if s.current is Some {
        assert(s.live(s.current->0));
    }
    let u = s.booted(image);
    assert(u.ready =~= seq![INIT_PID]);
    assert forall|p: usize, c: usize| #[trigger] u.is_child(p, c) implies u.live(c)
        && u.tasks[c].parent == Some(p) by {
        assert(p == INIT_PID);
    }
    assert forall|p: usize| #[trigger]
        u.live(p) && u.tasks[p].task_status is Ready implies u.ready.contains(p) by {
        assert(u.ready[0] == p);
    }
}

/// Yielding keeps the invariant.
pub proof fn lemma_yielded_wf(s: KernelView)
    requires
        s.wf(),
        s.current is Some,
    ensures
        s.yielded().wf(),
{
    let u = s.yielded();
    let c = s.cur();
    assert(s.live(c));
    assert forall|p: usize| #[trigger] u.live(p) implies s.live(p) by {}
    assert forall|p: usize, k: usize| #[trigger] u.is_child(p, k) implies u.live(k)
        && u.tasks[k].parent == Some(p) by {
        assert(s.is_child(p, k));
    }
    assert forall|k: usize| #[trigger] u.live(k) && u.tasks[k].parent is Some implies u.is_child(
        u.tasks[k].parent->0,
        k,
    ) by {
        assert(s.live(k));
        assert(s.is_child(s.tasks[k].parent->0, k));
    }
    assert forall|i: int| 0 <= i < u.ready.len() implies u.live(#[trigger] u.ready[i])
        && u.tasks[u.ready[i]].task_status is Ready by {
        if i < s.ready.len() {
            assert(s.live(s.ready[i]));
        }
    }
    assert(u.ready.no_duplicates()) by {
        assert forall|i: int, j: int| 0 <= i < u.ready.len() && 0 <= j < u.ready.len() && i != j
            implies u.ready[i] != u.ready[j] by {
            if i < s.ready.len() {
                assert(s.live(s.ready[i]));
            }
            if j < s.ready.len() {
                assert(s.live(s.ready[j]));
            }
        }
    }
    assert forall|p: usize| #[trigger]
        u.live(p) && u.tasks[p].task_status is Ready implies u.ready.contains(p) by {
        if p == c {
            assert(u.ready[s.ready.len() as int] == c);
        } else {
            assert(s.live(p));
            let i = choose|i: int| 0 <= i < s.ready.len() && s.ready[i] == p;
            assert(u.ready[i] == p);
        }
    }
}

/// Taking the processor from the running task keeps the invariant for
/// that task.
pub proof fn lemma_released_inv(s: KernelView)
    requires
        s.wf(),
    ensures
        s.released().inv(s.current),
{
    assert(s.released().tasks == s.tasks);
    lemma_relinked_inv(s, s.released(), s.current);
}

/// Replacing every task by a well-formed one with the same links keeps the
/// invariant.
pub proof fn lemma_relinked_inv(s: KernelView, u: KernelView, running: Option<usize>)
    requires
        s.inv(running),
        u.ready == s.ready,
        u.tasks.dom() == s.tasks.dom(),
        forall|p: usize| #[trigger]
            s.live(p) ==> u.tasks[p].wf() && same_links(s.tasks[p], u.tasks[p]),
    ensures
        u.inv(running),
{
    assert forall|p: usize| #[trigger] u.live(p) implies s.live(p) by {}
    assert forall|p: usize, c: usize| #[trigger] u.is_child(p, c) implies u.live(c)
        && u.tasks[c].parent == Some(p) by {
        assert(s.live(p));
        assert(s.is_child(p, c));
        assert(s.live(c));
    }
    assert forall|c: usize| #[trigger] u.live(c) && u.tasks[c].parent is Some implies u.is_child(
        u.tasks[c].parent->0,
        c,
    ) by {
        assert(s.live(c));
        assert(s.is_child(s.tasks[c].parent->0, c));
        assert(s.live(s.tasks[c].parent->0));
    }
    assert forall|i: int| 0 <= i < u.ready.len() implies u.live(#[trigger] u.ready[i])
        && u.tasks[u.ready[i]].task_status is Ready by {
        assert(s.live(s.ready[i]));
    }
    assert forall|p: usize| #[trigger]
        u.live(p) && u.tasks[p].task_status is Ready implies u.ready.contains(p) by {
        assert(s.live(p));
    }
}

/// A ready queue that is not empty has a task to run next, and only one.
pub proof fn lemma_next_exists(s: KernelView)
    requires
        s.ready.len() > 0,
    ensures
        s.is_next(s.next_index()),
        forall|i: int| s.is_next(i) ==> i == s.next_index(),
{
    let n = s.ready.len() as int;
    lemma_next_upto(s, n);
    let w = choose|i: int| s.is_first_min(i, n);
    assert(s.is_next(w));
    let c = s.next_index();
    assert forall|i: int| s.is_next(i) implies i == c by {
        if i < c {
            assert(s.stride_at(c) < s.stride_at(i));
            assert(s.stride_at(i) <= s.stride_at(c));
        }
        if c < i {
            assert(s.stride_at(i) < s.stride_at(c));
            assert(s.stride_at(c) <= s.stride_at(i));
        }
    }
}

proof fn lemma_next_upto(s: KernelView, n: int)
    requires
        0 < n <= s.ready.len(),
    ensures
        exists|i: int| s.is_first_min(i, n),
    decreases n,
{
    if n == 1 {
        assert(s.is_first_min(0, 1));
    } else {
        let m = n - 1;
        lemma_next_upto(s, m);
        let i = choose|i: int| s.is_first_min(i, m);
        let w = if s.stride_at(n - 1) < s.stride_at(i) { n - 1 } else { i };
        assert(s.is_first_min(w, n));
    }
}

/// Lowering the ready strides keeps the invariant.
pub proof fn lemma_rebased_inv(s: KernelView, base: u8, running: Option<usize>)
    requires
        s.inv(running),
    ensures
        s.rebased(base).inv(running),
{
    let u = s.rebased(base);
    assert(u.tasks.dom() =~= s.tasks.dom());
    lemma_relinked_inv(s, u, running);
}

/// Picking the next task keeps the invariant.
pub proof fn lemma_dispatched_wf(s: KernelView, now: usize)
    requires
        s.wf(),
        s.current is None,
    ensures
        s.dispatched(now).wf(),
{
    if s.ready.len() > 0 {
        lemma_next_exists(s);
        let i = s.next_index();
        let p = s.ready[i];
        let m = s.settled();
        if !s.step_fits() {
            lemma_rebased_inv(s, s.tasks[p].stride, None);
        }
        assert(s.live(p));
        assert(m.live(p));
        let u = s.dispatched(now);
        assert forall|q: usize| #[trigger] u.live(q) implies m.live(q) by {}
        assert forall|q: usize, c: usize| #[trigger] u.is_child(q, c) implies u.live(c)
            && u.tasks[c].parent == Some(q) by {
            assert(m.is_child(q, c));
        }
        assert forall|c: usize| #[trigger]
            u.live(c) && u.tasks[c].parent is Some implies u.is_child(u.tasks[c].parent->0, c) by {
            assert(m.live(c));
            assert(m.is_child(m.tasks[c].parent->0, c));
        }
        assert forall|k: int| 0 <= k < u.ready.len() implies u.live(#[trigger] u.ready[k])
            && u.tasks[u.ready[k]].task_status is Ready by {
            let k0 = if k < i { k } else { k + 1 };
            assert(u.ready[k] == s.ready[k0]);
            assert(m.live(m.ready[k0]));
        }
        assert(u.ready.no_duplicates()) by {
            assert forall|a: int, b: int|
                0 <= a < u.ready.len() && 0 <= b < u.ready.len() && a != b implies u.ready[a]
                != u.ready[b] by {
                let a0 = if a < i { a } else { a + 1 };
                let b0 = if b < i { b } else { b + 1 };
                assert(u.ready[a] == s.ready[a0]);
                assert(u.ready[b] == s.ready[b0]);
            }
        }
        assert forall|q: usize| #[trigger]
            u.live(q) && u.tasks[q].task_status is Ready implies u.ready.contains(q) by {
            assert(m.live(q));
            assert(q != p);
            let k = choose|k: int| 0 <= k < m.ready.len() && m.ready[k] == q;
            let k1 = if k < i { k } else { k - 1 };
            assert(u.ready[k1] == q);
        }
        assert forall|q: usize| #[trigger] u.live(q) implies (u.tasks[q].task_status is Running
            <==> u.current == Some(q)) by {
            assert(m.live(q));
        }
    }
}

/// An exit of the running task keeps the invariant.
pub proof fn lemma_exited_wf(s: KernelView, code: i32)
    requires
        s.wf(),
        s.current is Some,
    ensures
        s.exited(code).wf(),
{
    let u = s.exited(code);
    let p = s.cur();
    let kids = s.cur_task().children;
    assert(s.live(p));
    assert(s.live(INIT_PID));
    assert(MemorySetView::empty().wf());
    assert(u.tasks.dom() =~= s.tasks.dom());
    assert forall|q: usize| #[trigger] u.live(q) implies s.live(q) by {}
    if p == INIT_PID {
        assert forall|q: usize, c: usize| #[trigger] u.is_child(q, c) implies u.live(c)
            && u.tasks[c].parent == Some(q) by {
            assert(s.is_child(q, c));
        }
        assert forall|c: usize| #[trigger]
            u.live(c) && u.tasks[c].parent is Some implies u.is_child(u.tasks[c].parent->0, c) by {
            assert(s.live(c));
            assert(s.is_child(s.tasks[c].parent->0, c));
        }
    } else {
        assert forall|c: usize| kids.contains(c) implies s.live(c) && c != p && c != INIT_PID
            && s.tasks[c].parent == Some(p) by {
            assert(s.is_child(p, c));
        }
        assert forall|c: usize| s.tasks[INIT_PID].children.contains(c) implies s.live(c)
            && !kids.contains(c) && c != INIT_PID && s.tasks[c].parent == Some(INIT_PID) by {
            assert(s.is_child(INIT_PID, c));
        }
        let adopted = s.tasks[INIT_PID].children + kids;
        assert forall|c: usize| adopted.contains(c) <==> s.tasks[INIT_PID].children.contains(c)
            || kids.contains(c) by {
            if adopted.contains(c) {
                let k = choose|k: int| 0 <= k < adopted.len() && adopted[k] == c;
                if k < s.tasks[INIT_PID].children.len() {
                    assert(s.tasks[INIT_PID].children[k] == c);
                } else {
                    assert(kids[k - s.tasks[INIT_PID].children.len()] == c);
                }
            }
            if s.tasks[INIT_PID].children.contains(c) {
                let k = choose|k: int|
                    0 <= k < s.tasks[INIT_PID].children.len() && s.tasks[INIT_PID].children[k]
                        == c;
                assert(adopted[k] == c);
            }
            if kids.contains(c) {
                let k = choose|k: int| 0 <= k < kids.len() && kids[k] == c;
                assert(adopted[s.tasks[INIT_PID].children.len() + k] == c);
            }
        }
        assert(adopted.no_duplicates()) by {
            let own = s.tasks[INIT_PID].children;
            assert forall|i: int, j: int| 0 <= i < own.len() && 0 <= j < kids.len() implies own[i]
                != kids[j] by {
                assert(own.contains(own[i]));
                assert(kids.contains(kids[j]));
            }
            vstd::seq_lib::lemma_no_dup_in_concat(own, kids);
        }
        assert forall|q: usize, c: usize| #[trigger] u.is_child(q, c) implies u.live(c)
            && u.tasks[c].parent == Some(q) by {
            if q == INIT_PID {
            } else {
                assert(s.is_child(q, c));
            }
        }
        assert forall|c: usize| #[trigger]
            u.live(c) && u.tasks[c].parent is Some implies u.is_child(u.tasks[c].parent->0, c) by {
            assert(s.live(c));
            if kids.contains(c) {
            } else {
                assert(s.is_child(s.tasks[c].parent->0, c));
                assert(s.live(s.tasks[c].parent->0));
            }
        }
    }
    assert forall|i: int| 0 <= i < u.ready.len() implies u.live(#[trigger] u.ready[i])
        && u.tasks[u.ready[i]].task_status is Ready by {
        assert(s.live(s.ready[i]));
    }
    assert forall|q: usize| #[trigger]
        u.live(q) && u.tasks[q].task_status is Ready implies u.ready.contains(q) by {
        assert(s.live(q));
    }
}

/// The pid the next new task gets exists as soon as some pid is free, and
/// is the only one of its kind.
pub proof fn lemma_next_pid(s: KernelView, p: usize)
    requires
        s.is_next_pid(p),
    ensures
        s.next_pid() == p,
{
    let c = s.next_pid();
    assert(s.is_next_pid(c));
    if c < p {
        assert(s.live(c));
    }
    if p < c {
        assert(s.live(p));
    }
}

/// While the invariant holds some pid is free, so the pid the next new
/// task gets exists.
pub proof fn lemma_next_pid_exists(s: KernelView)
    requires
        s.tasks_wf(),
    ensures
        s.is_next_pid(s.next_pid()),
{
    assert(!s.live(usize::MAX));
    lemma_least_free(s, usize::MAX);
}

proof fn lemma_least_free(s: KernelView, n: usize)
    requires
        !s.live(n),
    ensures
        exists|p: usize| s.is_next_pid(p),
    decreases n,
{
    if exists|q: usize| q < n && !s.live(q) {
        let q = choose|q: usize| q < n && !s.live(q);
        lemma_least_free(s, q);
    } else {
        assert(s.is_next_pid(n));
    }
}

/// A fork by the running task keeps the invariant.
pub proof fn lemma_forked_wf(s: KernelView, c: usize)
    requires
        s.wf(),
        s.current is Some,
        !s.live(c),
        c <= isize::MAX,
    ensures
        s.forked_as(c).wf(),
{
    let u = s.forked_as(c);
    let p = s.cur();
    let t = s.cur_task();
    assert(s.live(p));
    assert(s.live(INIT_PID));
    assert(t.pid == p);
    assert forall|q: usize| #[trigger] u.live(q) implies s.live(q) || q == c by {}
    assert(!t.children.contains(c)) by {
        if t.children.contains(c) {
            assert(s.is_child(p, c));
        }
    }
    assert(t.forked(c).wf());
    assert forall|q: usize, k: usize| #[trigger] u.is_child(q, k) implies u.live(k)
        && u.tasks[k].parent == Some(q) by {
        if q == p {
            if k != c {
                let kids = u.tasks[p].children;
                let i = choose|i: int| 0 <= i < kids.len() && kids[i] == k;
                assert(t.children[i] == k);
                assert(s.is_child(p, k));
            }
        } else {
            assert(s.is_child(q, k));
        }
    }
    assert forall|k: usize| #[trigger] u.live(k) && u.tasks[k].parent is Some implies u.is_child(
        u.tasks[k].parent->0,
        k,
    ) by {
        if k == c {
            assert(u.tasks[p].children[t.children.len() as int] == c);
        } else {
            assert(s.live(k));
            let q = s.tasks[k].parent->0;
            assert(s.is_child(q, k));
            if q == p {
                let i = choose|i: int| 0 <= i < t.children.len() && t.children[i] == k;
                assert(u.tasks[p].children[i] == k);
            }
        }
    }
    assert forall|i: int| 0 <= i < u.ready.len() implies u.live(#[trigger] u.ready[i])
        && u.tasks[u.ready[i]].task_status is Ready by {
        if i < s.ready.len() {
            assert(s.live(s.ready[i]));
        }
    }
    assert(u.ready.no_duplicates()) by {
        assert forall|i: int, j: int| 0 <= i < u.ready.len() && 0 <= j < u.ready.len() && i != j
            implies u.ready[i] != u.ready[j] by {
            if i < s.ready.len() {
                assert(s.live(s.ready[i]));
            }
            if j < s.ready.len() {
                assert(s.live(s.ready[j]));
            }
        }
    }
    assert forall|q: usize| #[trigger]
        u.live(q) && u.tasks[q].task_status is Ready implies u.ready.contains(q) by {
        if q == c {
            assert(u.ready[s.ready.len() as int] == c);
        } else {
            assert(s.live(q));
            let i = choose|i: int| 0 <= i < s.ready.len() && s.ready[i] == q;
            assert(u.ready[i] == q);
        }
    }
}

/// Collecting a zombie child of the running task keeps the invariant.
pub proof fn lemma_reaped_wf(s: KernelView, i: int)
    requires
        s.wf(),
        s.current is Some,
        0 <= i < s.cur_task().children.len(),
        s.tasks[s.cur_task().children[i]].task_status is Zombie,
    ensures
        s.reaped(i).wf(),
{
    let u = s.reaped(i);
    let p = s.cur();
    let t = s.cur_task();
    let c = t.children[i];
    assert(s.live(p));
    assert(t.pid == p);
    assert(s.is_child(p, c));
    assert(s.live(c));
    assert(c != p);
    assert(c != INIT_PID);
    assert(s.tasks[c].children.len() == 0);
    assert forall|q: usize| #[trigger] u.live(q) implies s.live(q) && q != c by {}
    let kids = t.children.remove(i);
    assert forall|k: usize| kids.contains(k) <==> t.children.contains(k) && k != c by {
        if kids.contains(k) {
            let j = choose|j: int| 0 <= j < kids.len() && kids[j] == k;
            let j0 = if j < i { j } else { j + 1 };
            assert(t.children[j0] == k);
        }
        if t.children.contains(k) && k != c {
            let j = choose|j: int| 0 <= j < t.children.len() && t.children[j] == k;
            let j1 = if j < i { j } else { j - 1 };
            assert(kids[j1] == k);
        }
    }
    assert(kids.no_duplicates()) by {
        assert forall|a: int, b: int| 0 <= a < kids.len() && 0 <= b < kids.len() && a != b
            implies kids[a] != kids[b] by {
            let a0 = if a < i { a } else { a + 1 };
            let b0 = if b < i { b } else { b + 1 };
            assert(kids[a] == t.children[a0]);
            assert(kids[b] == t.children[b0]);
        }
    }
    assert forall|q: usize, k: usize| #[trigger] u.is_child(q, k) implies u.live(k)
        && u.tasks[k].parent == Some(q) by {
        assert(s.is_child(q, k));
    }
    assert forall|k: usize| #[trigger] u.live(k) && u.tasks[k].parent is Some implies u.is_child(
        u.tasks[k].parent->0,
        k,
    ) by {
        assert(s.live(k));
        let q = s.tasks[k].parent->0;
        assert(s.is_child(q, k));
        assert(s.live(q));
        if q == c {
            assert(s.tasks[c].children.contains(k));
        }
    }
    assert forall|j: int| 0 <= j < u.ready.len() implies u.live(#[trigger] u.ready[j])
        && u.tasks[u.ready[j]].task_status is Ready by {
        assert(s.live(s.ready[j]));
    }
    assert forall|q: usize| #[trigger]
        u.live(q) && u.tasks[q].task_status is Ready implies u.ready.contains(q) by {
        assert(s.live(q));
    }
    assert(u.live(INIT_PID)) by {
        assert(s.live(INIT_PID));
    }
}

/// Where some zombie child is accepted, the first such child exists.
pub proof fn lemma_first_zombie_match(s: KernelView, pid: isize)
    requires
        s.has_zombie_match(pid),
    ensures
        s.is_first_zombie_match(pid, s.first_zombie_match(pid)),
{
    let w = choose|i: int| s.is_zombie_match(pid, i);
    lemma_first_zombie_upto(s, pid, w);
}

proof fn lemma_first_zombie_upto(s: KernelView, pid: isize, w: int)
    requires
        s.is_zombie_match(pid, w),
    ensures
        exists|i: int| s.is_first_zombie_match(pid, i),
    decreases w,
{
    if exists|j: int| 0 <= j < w && s.is_zombie_match(pid, j) {
        let j = choose|j: int| 0 <= j < w && s.is_zombie_match(pid, j);
        lemma_first_zombie_upto(s, pid, j);
    } else {
        assert(s.is_first_zombie_match(pid, w));
    }
}

} // verus!
