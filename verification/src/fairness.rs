//! Stride scheduling shares the processor in proportion to priority: among
//! tasks that stay ready, the turns of each, weighted by its stride step,
//! never run more than one step ahead of another's.

use vstd::prelude::*;
use crate::config::BIG_STRIDE;
use crate::model::{
    lemma_dispatched_wf, lemma_next_exists, lemma_yielded_wf, KernelView,
};
use crate::task::stride_step;

verus! {

impl KernelView {
    /// Stride step of task `p`.
    pub open spec fn step_of(self, p: usize) -> int {
        stride_step(self.tasks[p].prio_level) as int
    }

    /// One turn: the idle processor picks the next task at clock reading
    /// `now`, the task runs and yields.
    pub open spec fn turn(self, now: usize) -> KernelView {
        self.dispatched(now).yielded()
    }

    /// The state after `n` turns in a row, the `k`-th at clock reading
    /// `clock(k)`.
    pub open spec fn run(self, n: nat, clock: spec_fn(nat) -> usize) -> KernelView
        decreases n,
    {
        if n == 0 {
            self
        } else {
            self.run((n - 1) as nat, clock).turn(clock((n - 1) as nat))
        }
    }

    /// How many of the first `n` turns went to task `p`.
    pub open spec fn turns_of(self, n: nat, clock: spec_fn(nat) -> usize, p: usize) -> nat
        decreases n,
    {
        if n == 0 {
            0
        } else {
            self.turns_of((n - 1) as nat, clock, p) + (if self.run((n - 1) as nat, clock).next_task()
                == p {
                1nat
            } else {
                0nat
            })
        }
    }

    /// By how much one turn lowers the ready strides: nothing, unless the
    /// stride of the next task has no room for its step.
    pub open spec fn lowering(self) -> int {
        if self.step_fits() {
            0
        } else {
            self.tasks[self.next_task()].stride as int
        }
    }

    /// By how much the first `n` turns lowered the ready strides in all.
    pub open spec fn lowered(self, n: nat, clock: spec_fn(nat) -> usize) -> int
        decreases n,
    {
        if n == 0 {
            0
        } else {
            self.lowered((n - 1) as nat, clock) + self.run((n - 1) as nat, clock).lowering()
        }
    }

    /// No ready task is more than one step of its own ahead of another.
    pub open spec fn balanced(self) -> bool {
        forall|p: usize, q: usize|
            #![trigger self.ready.contains(p), self.ready.contains(q)]
            self.ready.contains(p) && self.ready.contains(q) ==> self.tasks[p].stride
                <= self.tasks[q].stride + self.step_of(p)
    }

    /// `other` has the same tasks ready, with the same priorities.
    pub open spec fn same_contest(self, other: KernelView) -> bool {
        &&& forall|p: usize| #[trigger] self.ready.contains(p) == other.ready.contains(p)
        &&& forall|p: usize| #[trigger]
            self.ready.contains(p) ==> self.tasks[p].prio_level == other.tasks[p].prio_level
    }
}

/// Lowering the ready strides by an amount that none of them is below
/// changes neither the distance between any two of them nor the task that
/// runs next.
pub proof fn law_lowering_keeps_order(s: KernelView, base: u8)
    requires
        s.wf(),
        s.ready.len() > 0,
        forall|i: int| 0 <= i < s.ready.len() ==> base <= #[trigger] s.stride_at(i),
    ensures
        forall|i: int|
            0 <= i < s.ready.len() ==> #[trigger] s.rebased(base).stride_at(i) == s.stride_at(i)
                - base,
        s.rebased(base).next_index() == s.next_index(),
        s.rebased(base).next_task() == s.next_task(),
{
    let u = s.rebased(base);
    assert forall|i: int| 0 <= i < s.ready.len() implies #[trigger] u.stride_at(i) == s.stride_at(
        i,
    ) - base by {
        assert(s.live(s.ready[i]));
        assert(s.ready.contains(s.ready[i]));
    }
    lemma_next_exists(s);
    lemma_next_exists(u);
    let i = s.next_index();
    assert(u.is_next(i)) by {
        assert forall|j: int| 0 <= j < u.ready.len() implies u.stride_at(i) <= #[trigger] u.stride_at(
            j,
        ) by {
            assert(s.stride_at(i) <= s.stride_at(j));
        }
        assert forall|j: int| 0 <= j < i implies u.stride_at(i) < #[trigger] u.stride_at(j) by {
            assert(s.stride_at(i) < s.stride_at(j));
        }
    }
}

/// One turn keeps the invariant, the ready tasks and their priorities, and
/// the balance of the strides; it advances the stride of the task it went to
/// by that task's step, after lowering all ready strides by the same amount.
pub proof fn lemma_turn(s: KernelView, now: usize)
    requires
        s.wf(),
        s.current is None,
        s.ready.len() > 0,
        s.balanced(),
    ensures
        s.turn(now).wf(),
        s.turn(now).current is None,
        s.turn(now).ready.len() > 0,
        s.turn(now).balanced(),
        s.same_contest(s.turn(now)),
        s.ready.contains(s.next_task()),
        forall|p: usize| #[trigger]
            s.ready.contains(p) ==> s.turn(now).tasks[p].stride + s.lowering() == s.tasks[p].stride
                + (if p == s.next_task() {
                s.step_of(p)
            } else {
                0
            }),
{
    lemma_next_exists(s);
    lemma_dispatched_wf(s, now);
    let i = s.next_index();
    let c = s.next_task();
    let d = s.dispatched(now);
    lemma_yielded_wf(d);
    let u = s.turn(now);
    let m = s.settled();
    assert(s.ready[i] == c);
    assert(s.live(c));
    assert forall|p: usize| s.ready.contains(p) implies s.live(p) && s.tasks[c].stride
        <= s.tasks[p].stride by {
        let k = choose|k: int| 0 <= k < s.ready.len() && s.ready[k] == p;
        assert(s.live(s.ready[k]));
        assert(s.stride_at(i) <= s.stride_at(k));
    }
    assert forall|p: usize| #[trigger] s.ready.contains(p) == u.ready.contains(p) by {
        let dr = s.ready.remove(i);
        assert(u.ready == dr.push(c));
        if s.ready.contains(p) {
            let k = choose|k: int| 0 <= k < s.ready.len() && s.ready[k] == p;
            if k == i {
                assert(u.ready[dr.len() as int] == p);
            } else {
                let k1 = if k < i { k } else { k - 1 };
                assert(u.ready[k1] == p);
            }
        }
        if u.ready.contains(p) {
            let k = choose|k: int| 0 <= k < u.ready.len() && u.ready[k] == p;
            if k < dr.len() {
                let k0 = if k < i { k } else { k + 1 };
                assert(s.ready[k0] == p);
            }
        }
    }
    assert forall|p: usize| #[trigger] s.ready.contains(p) implies u.tasks[p].stride
        + s.lowering() == s.tasks[p].stride + (if p == c {
        s.step_of(p)
    } else {
        0
    }) && u.tasks[p].prio_level == s.tasks[p].prio_level by {
        assert(s.live(p));
        assert(m.tasks[p].prio_level == s.tasks[p].prio_level);
        assert(m.tasks[p].stride + s.lowering() == s.tasks[p].stride);
    }
    assert forall|p: usize, q: usize|
        #![trigger u.ready.contains(p), u.ready.contains(q)]
        u.ready.contains(p) && u.ready.contains(q) implies u.tasks[p].stride <= u.tasks[q].stride
        + u.step_of(p) by {
        assert(s.ready.contains(p) == u.ready.contains(p));
        assert(s.ready.contains(q) == u.ready.contains(q));
        assert(s.tasks[p].stride <= s.tasks[q].stride + s.step_of(p));
    }
}

/// A run of turns keeps the invariant, the ready tasks, their priorities and
/// the balance of the strides, and the stride of each ready task accounts
/// for its turns: it has advanced by its step once for every turn it had,
/// less what the run lowered all strides by.
pub proof fn lemma_run(s: KernelView, n: nat, clock: spec_fn(nat) -> usize)
    requires
        s.wf(),
        s.current is None,
        s.ready.len() > 0,
        s.balanced(),
    ensures
        s.run(n, clock).wf(),
        s.run(n, clock).current is None,
        s.run(n, clock).ready.len() > 0,
        s.run(n, clock).balanced(),
        s.same_contest(s.run(n, clock)),
        forall|p: usize| #[trigger]
            s.ready.contains(p) ==> s.run(n, clock).tasks[p].stride + s.lowered(n, clock)
                == s.tasks[p].stride + s.turns_of(n, clock, p) * s.step_of(p),
    decreases n,
{
    if n > 0 {
        let k = (n - 1) as nat;
        lemma_run(s, k, clock);
        let r = s.run(k, clock);
        lemma_turn(r, clock(k));
        let u = s.run(n, clock);
        assert(u == r.turn(clock(k)));
        assert forall|p: usize| #[trigger] s.ready.contains(p) == u.ready.contains(p) by {
            assert(s.ready.contains(p) == r.ready.contains(p));
            assert(r.ready.contains(p) == u.ready.contains(p));
        }
        assert forall|p: usize| #[trigger] s.ready.contains(p) implies s.tasks[p].prio_level
            == u.tasks[p].prio_level by {
            assert(s.ready.contains(p) == r.ready.contains(p));
        }
        assert forall|p: usize| #[trigger] s.ready.contains(p) implies u.tasks[p].stride
            + s.lowered(n, clock) == s.tasks[p].stride + s.turns_of(n, clock, p) * s.step_of(
            p,
        ) by {
            assert(s.ready.contains(p) == r.ready.contains(p));
            let a = s.turns_of(k, clock, p) as int;
            let b = s.step_of(p);
            assert(r.step_of(p) == b);
            assert((a + 1) * b == a * b + b) by (nonlinear_arith);
        }
    } else {
        assert forall|p: usize| #[trigger] s.ready.contains(p) implies s.run(n, clock).tasks[p].stride
            + s.lowered(n, clock) == s.tasks[p].stride + s.turns_of(n, clock, p) * s.step_of(
            p,
        ) by {
            assert(s.run(n, clock) == s);
            assert(s.lowered(n, clock) == 0);
            assert(s.turns_of(n, clock, p) == 0);
            assert(0 * s.step_of(p) == 0);
        }
    }
}

/// Stride scheduling is fair among tasks that stay ready. Start from a
/// balanced state, as any state is in which the ready strides are equal,
/// and let `n` turns pass in which each task yields after its turn. Then for
/// any two ready tasks the turns of the one, weighted by its step, exceed
/// those of the other by no more than one step, once the lead the other
/// started with is added.
pub proof fn law_stride_fair(
    s: KernelView,
    n: nat,
    clock: spec_fn(nat) -> usize,
    p: usize,
    q: usize,
)
    requires
        s.wf(),
        s.current is None,
        s.balanced(),
        s.ready.contains(p),
        s.ready.contains(q),
    ensures
        s.turns_of(n, clock, p) * s.step_of(p) <= s.turns_of(n, clock, q) * s.step_of(q)
            + s.step_of(p) + (s.tasks[q].stride - s.tasks[p].stride),
{
    lemma_run(s, n, clock);
    let u = s.run(n, clock);
    assert(s.ready.contains(p) == u.ready.contains(p));
    assert(s.ready.contains(q) == u.ready.contains(q));
    assert(u.tasks[p].stride <= u.tasks[q].stride + u.step_of(p));
}

/// Where the priorities of two ready tasks divide `BIG_STRIDE` and their
/// strides start equal, their turns are in proportion to their priorities,
/// to within one turn: the turns of the one times the priority of the other
/// exceed the turns of the other times the priority of the one by no more
/// than the other's priority.
pub proof fn law_turns_proportional(
    s: KernelView,
    n: nat,
    clock: spec_fn(nat) -> usize,
    p: usize,
    q: usize,
)
    requires
        s.wf(),
        s.current is None,
        s.balanced(),
        s.ready.contains(p),
        s.ready.contains(q),
        s.tasks[p].stride == s.tasks[q].stride,
        BIG_STRIDE % s.tasks[p].prio_level == 0,
        BIG_STRIDE % s.tasks[q].prio_level == 0,
    ensures
        s.turns_of(n, clock, p) * s.tasks[q].prio_level <= s.turns_of(n, clock, q)
            * s.tasks[p].prio_level + s.tasks[q].prio_level,
{
    law_stride_fair(s, n, clock, p, q);
    let i = choose|i: int| 0 <= i < s.ready.len() && s.ready[i] == p;
    let j = choose|j: int| 0 <= j < s.ready.len() && s.ready[j] == q;
    assert(s.live(s.ready[i]));
    assert(s.live(s.ready[j]));
    let a = s.tasks[p].prio_level as int;
    let b = s.tasks[q].prio_level as int;
    let sa = s.step_of(p);
    let sb = s.step_of(q);
    let np = s.turns_of(n, clock, p) as int;
    let nq = s.turns_of(n, clock, q) as int;
    assert(sa * a == 255 && sb * b == 255) by {
        assert(sa == 255int / a);
        assert(sb == 255int / b);
        assert(255int % a == 0);
        assert(255int % b == 0);
        assert((255int / a) * a + 255int % a == 255) by (nonlinear_arith)
            requires
                a > 0,
        ;
        assert((255int / b) * b + 255int % b == 255) by (nonlinear_arith)
            requires
                b > 0,
        ;
    }
    assert(np * sa <= nq * sb + sa);
    assert(np * b <= nq * a + b) by (nonlinear_arith)
        requires
            np * sa <= nq * sb + sa,
            sa * a == 255,
            sb * b == 255,
            a > 0,
            b > 0,
            np >= 0,
            nq >= 0,
    {
        assert((np * sa) * (a * b) <= (nq * sb + sa) * (a * b));
        assert((np * sa) * (a * b) == 255 * (np * b));
        assert((nq * sb + sa) * (a * b) == 255 * (nq * a) + 255 * b);
    }
}

} // verus!
