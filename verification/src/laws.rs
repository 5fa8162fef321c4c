//! What holds of sequences of kernel operations, proved over the
//! mathematical state of [`crate::model`].

use vstd::prelude::*;
use crate::config::{BIG_STRIDE, INIT_PID};
use crate::mm::{
    law_map_over_mapped_refused, law_map_then_unmap, law_unmap_unmapped_refused,
    lemma_map_range_wf, lemma_unmap_range_wf, page_ceil, page_floor,
};
use crate::model::{
    lemma_exited_wf, lemma_first_zombie_match, lemma_forked_wf, lemma_next_exists,
    lemma_next_pid_exists, lemma_with_task_inv, KernelView,
};
use crate::syscall::process::range_end;
use crate::syscall::{SYSCALL_MMAP, SYSCALL_MUNMAP};
use crate::task::priority_valid;

verus! {

/// An `mmap` that succeeds can be undone: the `munmap` of the same range
/// succeeds too, and afterwards no page of the range is mapped and every
/// other page is mapped exactly if it was before.
pub proof fn law_mmap_then_munmap(s: KernelView, start: usize, len: usize, port: usize)
    requires
        s.wf(),
        s.current is Some,
        s.sys_mmap_ok(start, len, port),
    ensures
        s.sys_mmap(start, len, port).wf(),
        s.sys_mmap(start, len, port).sys_munmap_ok(start, len),
        s.sys_mmap(start, len, port).sys_munmap(start, len).wf(),
        s.sys_mmap(start, len, port).sys_munmap(start, len).cur_task().memory_set.range_free(
            page_floor(start),
            page_ceil(range_end(start, len)->0),
        ),
        forall|vpn: usize|
            s.sys_mmap(start, len, port).sys_munmap(start, len).cur_task().memory_set.mapped(vpn)
                == s.cur_task().memory_set.mapped(vpn),
{
    let end = range_end(start, len)->0;
    let c = s.cur();
    assert(s.live(c));
    let ms = s.cur_task().memory_set;
    law_map_then_unmap(ms, start, end, port);
    let s1 = s.recorded(SYSCALL_MMAP);
    lemma_with_task_inv(s, s1.tasks[c], s.current);
    let s2 = s1.mapped(start, end, port);
    assert(s2 == s.sys_mmap(start, len, port));
    lemma_map_range_wf(ms, start, end, port);
    lemma_with_task_inv(s1, s2.tasks[c], s.current);
    let s3 = s2.recorded(SYSCALL_MUNMAP);
    lemma_with_task_inv(s2, s3.tasks[c], s.current);
    let s4 = s3.unmapped(start, end);
    lemma_unmap_range_wf(ms.map_range(start, end, port), start, end);
    assert(s4 == s2.sys_munmap(start, len));
    lemma_with_task_inv(s3, s4.tasks[c], s.current);
}

/// An `mmap` over a range that holds a mapped page returns -1 and leaves
/// the address space as it was.
pub proof fn law_mmap_over_mapped(
    s: KernelView,
    start: usize,
    len: usize,
    port: usize,
    vpn: usize,
)
    requires
        s.wf(),
        s.current is Some,
        range_end(start, len) is Some,
        page_floor(start) <= vpn < page_ceil(range_end(start, len)->0),
        s.cur_task().memory_set.mapped(vpn),
    ensures
        !s.sys_mmap_ok(start, len, port),
        s.syscall_result(SYSCALL_MMAP, [start, len, port], None) == -1,
        s.sys_mmap(start, len, port).cur_task().memory_set == s.cur_task().memory_set,
{
    law_map_over_mapped_refused(
        s.cur_task().memory_set,
        start,
        range_end(start, len)->0,
        port,
        vpn,
    );
    let args = [start, len, port];
    assert(args[0] == start && args[1] == len && args[2] == port);
}

/// A `munmap` of a range that holds an unmapped page returns -1 and leaves
/// the address space as it was.
pub proof fn law_munmap_unmapped(s: KernelView, start: usize, len: usize, vpn: usize)
    requires
        s.wf(),
        s.current is Some,
        range_end(start, len) is Some,
        page_floor(start) <= vpn < page_ceil(range_end(start, len)->0),
        !s.cur_task().memory_set.mapped(vpn),
    ensures
        !s.sys_munmap_ok(start, len),
        s.syscall_result(SYSCALL_MUNMAP, [start, len, 0], None) == -1,
        s.sys_munmap(start, len).cur_task().memory_set == s.cur_task().memory_set,
{
    law_unmap_unmapped_refused(s.cur_task().memory_set, start, range_end(start, len)->0, vpn);
    let args = [start, len, 0usize];
    assert(args[0] == start && args[1] == len);
}

/// The running task has no zombie child.
pub open spec fn no_zombie_child(s: KernelView) -> bool {
    forall|i: int|
        0 <= i < s.cur_task().children.len() ==> !(s.tasks[#[trigger] s.cur_task().children[
            i
        ]].task_status is Zombie)
}

/// A parent without zombie children that forks and at once waits, for any
/// child or for the new one, gets -2: the child exists and has not exited.
pub proof fn law_fork_then_wait(s: KernelView)
    requires
        s.wf(),
        s.current is Some,
        s.can_create(),
        no_zombie_child(s),
    ensures
        s.forked().wf(),
        s.forked().wait_result(-1isize) == -2,
        s.forked().wait_result(s.next_pid() as isize) == -2,
        s.forked().waited(-1isize) == s.forked(),
{
    let c = s.next_pid();
    let p = s.cur();
    let u = s.forked();
    lemma_next_pid_exists(s);
    assert(s.live(p));
    assert(s.is_next_pid(c));
    lemma_forked_wf(s, c);
    let kids = u.cur_task().children;
    let n = s.cur_task().children.len() as int;
    assert(kids[n] == c);
    assert(KernelView::wait_accepts(-1isize, kids[n]));
    assert(KernelView::wait_accepts(c as isize, kids[n]));
    assert(u.has_match(-1isize));
    assert(u.has_match(c as isize));
    assert forall|pid: isize, i: int| !u.is_zombie_match(pid, i) by {
        if 0 <= i < n {
            let k = s.cur_task().children[i];
            assert(kids[i] == k);
            assert(s.is_child(p, k));
            assert(s.live(k));
        }
    }
}

/// A child that exits with a code is collected by its parent with that
/// code: when the parent runs next and waits for the child by pid, it gets
/// the child's pid and the code, and the child is gone. A wait for any
/// child gives the same when no older child of the parent is a zombie.
pub proof fn law_exit_then_wait(s: KernelView, code: i32, now: usize)
    requires
        s.wf(),
        s.current is Some,
        s.cur() != INIT_PID,
        s.exited(code).ready.len() > 0,
        s.exited(code).next_task() == s.cur_task().parent->0,
    ensures
        s.exited(code).dispatched(now).wf(),
        s.exited(code).dispatched(now).current == s.cur_task().parent,
        s.exited(code).dispatched(now).wait_result(s.cur() as isize) == s.cur(),
        s.exited(code).dispatched(now).tasks[s.exited(code).dispatched(now).wait_child(
            s.cur() as isize,
        )].exit_code == code,
        !s.exited(code).dispatched(now).waited(s.cur() as isize).live(s.cur()),
        no_older_zombie(s.exited(code).dispatched(now), s.cur()) ==> {
            &&& s.exited(code).dispatched(now).wait_result(-1isize) == s.cur()
            &&& s.exited(code).dispatched(now).wait_child(-1isize) == s.cur()
        },
{
    let c = s.cur();
    assert(s.live(c));
    let p = s.cur_task().parent->0;
    assert(s.is_child(p, c));
    assert(s.live(p));
    let u = s.exited(code);
    lemma_exited_wf(s, code);
    assert(u.live(c));
    assert(u.tasks[c].task_status is Zombie);
    assert(u.tasks[c].exit_code == code);
    assert(u.tasks[c].parent == Some(p));
    assert(u.is_child(p, c));
    let t = u.dispatched(now);
    crate::model::lemma_dispatched_wf(u, now);
    lemma_next_exists(u);
    assert(t.current == Some(p));
    assert(t.live(p));
    assert(p != c);
    let m = u.settled();
    assert(m.live(c));
    assert(!u.ready.contains(c)) by {
        if u.ready.contains(c) {
            let i = choose|i: int| 0 <= i < u.ready.len() && u.ready[i] == c;
            assert(u.live(u.ready[i]));
        }
    }
    assert(t.tasks[c] == u.tasks[c]);
    assert(t.cur_task().children == u.tasks[p].children);
    let kids = t.cur_task().children;
    let i = choose|i: int| 0 <= i < kids.len() && kids[i] == c;
    assert(t.is_zombie_match(c as isize, i));
    assert(t.has_zombie_match(c as isize));
    assert(KernelView::wait_accepts(c as isize, kids[i]));
    assert(t.has_match(c as isize));
    lemma_first_zombie_match(t, c as isize);
    let f = t.first_zombie_match(c as isize);
    assert(kids[f] == c);
    assert(t.wait_child(c as isize) == c);
    if no_older_zombie(t, c) {
        assert(t.is_zombie_match(-1isize, i));
        assert(t.has_zombie_match(-1isize));
        assert(KernelView::wait_accepts(-1isize, kids[i]));
        assert(t.has_match(-1isize));
        lemma_first_zombie_match(t, -1isize);
        let g = t.first_zombie_match(-1isize);
        assert(t.is_zombie_match(-1isize, g));
        assert(g == i) by {
            assert(t.live(p));
            assert(kids.no_duplicates());
            if g < i {
                assert(!t.is_zombie_match(-1isize, g));
            }
            if i < g {
                assert(!t.is_zombie_match(-1isize, i));
            }
        }
    }
}

/// Every child that the running task lists before `c` is not a zombie.
pub open spec fn no_older_zombie(s: KernelView, c: usize) -> bool {
    forall|j: int, k: int|
        0 <= j < k < s.cur_task().children.len() && #[trigger] s.cur_task().children[k] == c
            ==> !(s.tasks[#[trigger] s.cur_task().children[j]].task_status is Zombie)
}

/// A task without children that waits gets -1, whatever it waits for, and
/// nothing changes.
pub proof fn law_wait_without_children(s: KernelView, pid: isize)
    requires
        s.current is Some,
        s.cur_task().children.len() == 0,
    ensures
        s.wait_result(pid) == -1,
        s.waited(pid) == s,
{
}

/// A priority takes effect at the next turn: a task that sets an acceptable
/// priority, yields and is picked again advances its stride by
/// `BIG_STRIDE` divided by the new priority.
pub proof fn law_priority_sets_step(s: KernelView, level: isize, now: usize)
    requires
        s.wf(),
        s.current is Some,
        priority_valid(level),
        s.with_priority(level).yielded().next_task() == s.cur(),
        s.with_priority(level).yielded().step_fits(),
    ensures
        s.with_priority(level).yielded().dispatched(now).current == s.current,
        s.with_priority(level).yielded().dispatched(now).tasks[s.cur()].stride
            == s.cur_task().stride + BIG_STRIDE / (level as u8),
{
    let c = s.cur();
    assert(s.live(c));
    let t = s.with_priority(level).yielded();
    assert(t.ready[s.ready.len() as int] == c);
}

} // verus!
