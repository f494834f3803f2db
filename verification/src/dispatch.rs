//! Task dispatcher: a fixed table of tasks, each with a static priority and
//! a binding (a hardware interrupt vector or a software-pending marker), and
//! highest-priority-ready-first execution.
//!
//! A task becomes eligible to run when its pending flag is raised, by an
//! interrupt source or by the monotonic scheduler. Raising the flag of a
//! task that is already pending coalesces the activations into one: the flag
//! is a bool, never a queue. The dispatcher always picks the highest-priority
//! pending task whose priority exceeds the current floor (the priority of
//! whatever is already running), runs it to completion, and falls back to
//! the idle level when nothing is pending.

use vstd::prelude::*;

verus! {

/// How a task's activations arrive: raised by a hardware interrupt vector,
/// or purely by software (`mark_pending` calls from other tasks or from the
/// monotonic scheduler).
#[derive(Clone, Copy, PartialEq, Eq, Structural, Debug)]
pub enum Binding {
    Interrupt(u16),
    Software,
}

/// One entry of the task table. Tasks are created at system definition and
/// never destroyed; only the pending flag changes at runtime.
#[derive(Clone, Copy, PartialEq, Eq, Structural, Debug)]
pub struct Task {
    pub priority: u8,
    pub binding: Binding,
    pub pending: bool,
}

/// The registration table: task id is the index.
pub struct Dispatcher {
    pub tasks: Vec<Task>,
}

/// The number of pending entries in a task table.
pub open spec fn pending_count(tasks: Seq<Task>) -> nat
    decreases tasks.len(),
{
    if tasks.len() == 0 {
        0
    } else {
        pending_count(tasks.drop_last()) + if tasks.last().pending {
            1nat
        } else {
            0nat
        }
    }
}

/// Clearing the pending flag of a pending entry lowers the pending count by
/// exactly one.
pub proof fn lemma_pending_count_clear(tasks: Seq<Task>, i: int, cleared: Task)
    requires
        0 <= i < tasks.len(),
        tasks[i].pending,
        !cleared.pending,
    ensures
        pending_count(tasks.update(i, cleared)) == pending_count(tasks) - 1,
    decreases tasks.len(),
{
    let upd = tasks.update(i, cleared);
    if i == tasks.len() - 1 {
        assert(upd.drop_last() =~= tasks.drop_last());
    } else {
        assert(upd.drop_last() =~= tasks.drop_last().update(i, cleared));
        lemma_pending_count_clear(tasks.drop_last(), i, cleared);
    }
}

impl Dispatcher {
    pub open spec fn task_count(self) -> nat {
        self.tasks@.len()
    }

    pub open spec fn prio(self, t: int) -> u8 {
        self.tasks@[t].priority
    }

    pub open spec fn is_pending(self, t: int) -> bool {
        self.tasks@[t].pending
    }

    /// An empty registration table.
    pub fn new() -> (d: Dispatcher)
        ensures
            d.task_count() == 0,
    {
        Dispatcher { tasks: Vec::new() }
    }

    /// Register one task at setup; the returned id is its table index.
    /// Newly registered tasks are not pending.
    pub fn register(&mut self, priority: u8, binding: Binding) -> (id: usize)
        ensures
            id == old(self).task_count(),
            final(self).task_count() == old(self).task_count() + 1,
            final(self).tasks@ == old(self).tasks@.push(
                Task { priority, binding, pending: false },
            ),
    {
        let id: usize = self.tasks.len();
        self.tasks.push(Task { priority, binding, pending: false });
        id
    }

    /// Raise the pending flag of a task. Safe from any interrupt context;
    /// this is its only externally observable effect. An activation of a
    /// task that is already pending is coalesced: the flag is simply true
    /// afterwards, a second activation is never queued.
    pub fn mark_pending(&mut self, id: usize)
        requires
            id < old(self).task_count(),
        ensures
            final(self).tasks@ == old(self).tasks@.update(
                id as int,
                Task {
                    priority: old(self).prio(id as int),
                    binding: old(self).tasks@[id as int].binding,
                    pending: true,
                },
            ),
    {
        let t: Task = self.tasks[id];
        self.tasks.set(id, Task { priority: t.priority, binding: t.binding, pending: true });
    }

    /// Lower the pending flag of a task: done by the dispatcher the moment
    /// it starts the task's activation.
    pub fn clear_pending(&mut self, id: usize)
        requires
            id < old(self).task_count(),
        ensures
            final(self).tasks@ == old(self).tasks@.update(
                id as int,
                Task {
                    priority: old(self).prio(id as int),
                    binding: old(self).tasks@[id as int].binding,
                    pending: false,
                },
            ),
    {
        let t: Task = self.tasks[id];
        self.tasks.set(id, Task { priority: t.priority, binding: t.binding, pending: false });
    }

    /// The highest-priority pending task whose priority is strictly above
    /// `floor`, ties broken towards the lowest id; `None` exactly when no
    /// pending task exceeds the floor.
    pub fn next_ready(&self, floor: u8) -> (r: Option<usize>)
        ensures
            match r {
                Some(i) => {
                    &&& i < self.task_count()
                    &&& self.is_pending(i as int)
                    &&& self.prio(i as int) > floor
                    &&& forall|j: int|
                        0 <= j < self.task_count() && self.is_pending(j) ==> self.prio(j)
                            <= self.prio(i as int)
                    &&& forall|j: int|
                        0 <= j < i && self.is_pending(j) ==> self.prio(j) < self.prio(i as int)
                },
                None => forall|j: int|
                    0 <= j < self.task_count() && self.is_pending(j) ==> self.prio(j) <= floor,
            },
    {
        let n: usize = self.tasks.len();
        let mut best: Option<usize> = None;
        let mut i: usize = 0;
        while i < n
            invariant
                i <= n,
                n == self.task_count(),
                match best {
                    Some(b) => {
                        &&& b < i
                        &&& self.is_pending(b as int)
                        &&& self.prio(b as int) > floor
                        &&& forall|j: int|
                            0 <= j < i && self.is_pending(j) ==> self.prio(j) <= self.prio(b as int)
                        &&& forall|j: int|
                            0 <= j < b && self.is_pending(j) ==> self.prio(j) < self.prio(b as int)
                    },
                    None => forall|j: int|
                        0 <= j < i && self.is_pending(j) ==> self.prio(j) <= floor,
                },
            decreases n - i,
        {
            let t: Task = self.tasks[i];
            if t.pending && t.priority > floor {
                match best {
                    Some(b) => {
                        let bt: Task = self.tasks[b];
                        if t.priority > bt.priority {
                            best = Some(i);
                        }
                    },
                    None => {
                        best = Some(i);
                    },
                }
            }
            i = i + 1;
        }
        best
    }

    /// Run every task pending at this instant to completion, highest
    /// priority first, with no new activations arriving meanwhile: the
    /// returned sequence is the order in which the dispatcher starts (and,
    /// tasks being run-to-completion, finishes) them. Each pending task
    /// appears exactly once, nothing else appears, and priorities along the
    /// order never increase.
    pub fn drain(&mut self) -> (order: Vec<usize>)
        requires
            // runnable tasks sit strictly above the idle level
            forall|t: int|
                0 <= t < old(self).task_count() && old(self).is_pending(t) ==> old(self).prio(t)
                    >= 1,
        ensures
            final(self).task_count() == old(self).task_count(),
            // the table is unchanged but for the pending flags, all cleared
            forall|t: int|
                0 <= t < old(self).task_count() ==> final(self).tasks@[t] == (Task {
                    priority: old(self).prio(t),
                    binding: old(self).tasks@[t].binding,
                    pending: false,
                }),
            // exactly the initially pending tasks run, each once
            forall|t: int|
                0 <= t < old(self).task_count() ==> (old(self).is_pending(t) <==> order@.contains(
                    t as usize,
                )),
            forall|k1: int, k2: int|
                0 <= k1 < k2 < order@.len() ==> order@[k1] != order@[k2],
            forall|k: int| 0 <= k < order@.len() ==> order@[k] < old(self).task_count(),
            // the order is by non-increasing priority
            forall|k1: int, k2: int|
                0 <= k1 < k2 < order@.len() ==> old(self).prio(order@[k1] as int) >= old(self).prio(
                    order@[k2] as int,
                ),
    {
        let mut order: Vec<usize> = Vec::new();
        let n_tasks: usize = self.tasks.len();
        loop
            invariant
                old(self).task_count() == n_tasks,
                self.task_count() == old(self).task_count(),
                forall|t: int|
                    0 <= t < old(self).task_count() && old(self).is_pending(t) ==> old(self).prio(
                        t,
                    ) >= 1,
                // priorities and bindings never change; pending only falls
                forall|t: int|
                    0 <= t < old(self).task_count() ==> self.prio(t) == old(self).prio(t)
                        && self.tasks@[t].binding == old(self).tasks@[t].binding,
                forall|t: int|
                    0 <= t < old(self).task_count() && self.is_pending(t) ==> old(self).is_pending(
                        t,
                    ),
                // a task is out of the order exactly while still pending or never pending
                forall|t: int|
                    0 <= t < old(self).task_count() ==> (order@.contains(t as usize) <==> (old(
                        self,
                    ).is_pending(t) && !self.is_pending(t))),
                forall|k1: int, k2: int|
                    0 <= k1 < k2 < order@.len() ==> order@[k1] != order@[k2],
                forall|k: int| 0 <= k < order@.len() ==> order@[k] < old(self).task_count(),
                forall|k1: int, k2: int|
                    0 <= k1 < k2 < order@.len() ==> old(self).prio(order@[k1] as int) >= old(
                        self,
                    ).prio(order@[k2] as int),
                // everything still pending is at or below the last run priority
                forall|k: int, t: int|
                    0 <= k < order@.len() && 0 <= t < old(self).task_count() && self.is_pending(t)
                        ==> self.prio(t) <= old(self).prio(order@[k] as int),
            ensures
                forall|t: int| 0 <= t < old(self).task_count() ==> !self.is_pending(t),
            decreases pending_count(self.tasks@),
        {
            let picked: Option<usize> = self.next_ready(0);
            match picked {
                None => {
                    proof {
                        assert forall|t: int|
                            0 <= t < self.task_count() implies !self.is_pending(t) by {
                            if self.is_pending(t) {
                                assert(old(self).is_pending(t));
                                assert(self.prio(t) == old(self).prio(t));
                                assert(self.prio(t) <= 0);
                            }
                        }
                    }
                    break ;
                },
                Some(id) => {
                    let ghost prev = self.tasks@;
                    let ghost prev_order = order@;
                    proof {
                        assert(prev[id as int].pending);
                        assert forall|j: int|
                            0 <= j < prev.len() && #[trigger] prev[j].pending implies prev[j].priority
                                <= prev[id as int].priority by {
                            assert(self.is_pending(j));
                            assert(self.prio(j) <= self.prio(id as int));
                        }
                        assert forall|t: int|
                            0 <= t < prev.len() && #[trigger] prev[t].pending implies old(
                                self,
                            ).is_pending(t) by {
                            assert(self.is_pending(t));
                        }
                        assert forall|t: int|
                            0 <= t < prev.len() implies (prev_order.contains(t as usize) <==> (old(
                                self,
                            ).is_pending(t) && !prev[t].pending)) by {
                            assert(self.is_pending(t) == prev[t].pending);
                        }
                    }
                    self.clear_pending(id);
                    proof {
                        lemma_pending_count_clear(
                            prev,
                            id as int,
                            Task {
                                priority: prev[id as int].priority,
                                binding: prev[id as int].binding,
                                pending: false,
                            },
                        );
                    }
                    order.push(id);
                    proof {
                        assert forall|x: usize| prev_order.contains(x) implies order@.contains(
                            x,
                        ) by {
                            let k = choose|k: int|
                                0 <= k < prev_order.len() && prev_order[k] == x;
                            assert(order@[k] == x);
                        }
                        assert forall|x: usize|
                            order@.contains(x) implies prev_order.contains(x) || x == id by {
                            let k = choose|k: int| 0 <= k < order@.len() && order@[k] == x;
                            if k < order@.len() - 1 {
                                assert(prev_order[k] == x);
                            }
                        }
                        assert(order@[order@.len() - 1] == id);
                        assert forall|t: int|
                            0 <= t < old(self).task_count() && self.is_pending(
                                t,
                            ) implies self.prio(t) <= old(self).prio(id as int) by {
                            assert(prev[t].pending);
                        }
                        assert forall|t: int|
                            0 <= t < old(self).task_count() implies (order@.contains(t as usize)
                                <==> (old(self).is_pending(t) && !self.is_pending(t))) by {
                            if t == id as int {
                                assert(order@.contains(id));
                                assert(prev[id as int].pending);
                                assert(old(self).is_pending(t));
                                assert(!self.is_pending(t));
                            } else {
                                assert(self.tasks@[t] == prev[t]);
                                assert(t as usize != id);
                                if order@.contains(t as usize) {
                                    assert(prev_order.contains(t as usize));
                                    assert(old(self).is_pending(t) && !prev[t].pending);
                                    assert(!self.is_pending(t));
                                } else {
                                    if old(self).is_pending(t) && !self.is_pending(t) {
                                        assert(!prev[t].pending);
                                        assert(prev_order.contains(t as usize));
                                        assert(order@.contains(t as usize));
                                    }
                                }
                            }
                        }
                    }
                },
            }
        }
        proof {
            assert forall|t: int| 0 <= t < old(self).task_count() implies self.tasks@[t] == (Task {
                priority: old(self).prio(t),
                binding: old(self).tasks@[t].binding,
                pending: false,
            }) by {
                assert(!self.is_pending(t));
            }
        }
        order
    }
}

/// The nesting of preempted activations: the stack of task ids currently
/// begun and not yet finished, priorities strictly increasing toward the
/// top, as the hardware's nested interrupt prioritization keeps them. Only
/// the top task executes; the ones below are suspended mid-body and each
/// resumes exactly where it left off once everything above it drains.
pub struct RunStack {
    pub frames: Vec<usize>,
}

impl RunStack {
    /// The stack is consistent with a task table: every frame is a task,
    /// and priorities strictly increase toward the top, so each entry
    /// preempted the one below it.
    pub open spec fn wf(self, d: Dispatcher) -> bool {
        &&& forall|k: int| 0 <= k < self.frames@.len() ==> self.frames@[k] < d.task_count()
        &&& forall|k1: int, k2: int|
            0 <= k1 < k2 < self.frames@.len() ==> d.prio(self.frames@[k1] as int) < d.prio(
                self.frames@[k2] as int,
            )
    }

    /// The priority level that a new activation must exceed to run: the
    /// idle level when nothing runs, else the running task's priority.
    pub open spec fn floor_spec(self, d: Dispatcher) -> u8 {
        if self.frames@.len() == 0 {
            0
        } else {
            d.prio(self.frames@.last() as int)
        }
    }

    /// An empty stack: the processor sits in the idle loop.
    pub fn new() -> (s: RunStack)
        ensures
            s.frames@.len() == 0,
            forall|d: Dispatcher| s.wf(d),
    {
        RunStack { frames: Vec::new() }
    }

    pub fn floor(&self, d: &Dispatcher) -> (f: u8)
        requires
            self.wf(*d),
        ensures
            f == self.floor_spec(*d),
    {
        if self.frames.len() == 0 {
            0
        } else {
            let top: usize = self.frames[self.frames.len() - 1];
            d.tasks[top].priority
        }
    }

    /// One dispatch step: if some pending task outranks the current floor,
    /// the highest such task preempts — its pending flag is consumed and
    /// its activation begins on top of the stack. Otherwise nothing
    /// happens: whatever is pending waits for the running levels to drain.
    pub fn try_preempt(&mut self, d: &mut Dispatcher) -> (started: Option<usize>)
        requires
            old(self).wf(*old(d)),
        ensures
            final(self).wf(*final(d)),
            final(d).task_count() == old(d).task_count(),
            forall|t: int|
                0 <= t < old(d).task_count() ==> final(d).prio(t) == old(d).prio(t)
                    && final(d).tasks@[t].binding == old(d).tasks@[t].binding,
            match started {
                Some(i) => {
                    &&& i < old(d).task_count()
                    &&& old(d).is_pending(i as int)
                    &&& old(d).prio(i as int) > old(self).floor_spec(*old(d))
                    &&& forall|j: int|
                        0 <= j < old(d).task_count() && old(d).is_pending(j) ==> old(d).prio(j)
                            <= old(d).prio(i as int)
                    &&& final(self).frames@ == old(self).frames@.push(i)
                    &&& final(d).tasks@ == old(d).tasks@.update(
                        i as int,
                        Task {
                            priority: old(d).prio(i as int),
                            binding: old(d).tasks@[i as int].binding,
                            pending: false,
                        },
                    )
                },
                None => {
                    &&& final(self).frames@ == old(self).frames@
                    &&& final(d).tasks@ == old(d).tasks@
                    &&& forall|j: int|
                        0 <= j < old(d).task_count() && old(d).is_pending(j) ==> old(d).prio(j)
                            <= old(self).floor_spec(*old(d))
                },
            },
    {
        let f: u8 = self.floor(d);
        let picked: Option<usize> = d.next_ready(f);
        match picked {
            None => None,
            Some(i) => {
                let ghost prev_frames = self.frames@;
                d.clear_pending(i);
                self.frames.push(i);
                proof {
                    assert forall|k1: int, k2: int|
                        0 <= k1 < k2 < self.frames@.len() implies d.prio(
                        self.frames@[k1] as int,
                    ) < d.prio(self.frames@[k2] as int) by {
                        if k2 == self.frames@.len() - 1 {
                            assert(self.frames@[k2] == i);
                            assert(d.prio(prev_frames[k1] as int) <= old(self).floor_spec(
                                *old(d),
                            ));
                        }
                    }
                }
                Some(i)
            },
        }
    }

    /// The running activation completes and returns: its frame pops, and
    /// the task it preempted — exactly the one below it — resumes where it
    /// left off. LIFO is the whole contract: no other order is possible.
    pub fn retire(&mut self, d: &Dispatcher) -> (finished: usize)
        requires
            old(self).wf(*d),
            old(self).frames@.len() > 0,
        ensures
            final(self).wf(*d),
            finished == old(self).frames@.last(),
            final(self).frames@ == old(self).frames@.drop_last(),
    {
        let finished: usize = self.frames[self.frames.len() - 1];
        self.frames.pop();
        proof {
            assert(self.frames@ =~= old(self).frames@.drop_last());
        }
        finished
    }
}

/// Coalescing: raising the pending flag of a task that is already pending
/// changes nothing at all — the flag is a bool, so a reentrant activation
/// folds into the one already recorded and is never queued a second time.
pub proof fn lemma_mark_pending_coalesces(tasks: Seq<Task>, id: int)
    requires
        0 <= id < tasks.len(),
        tasks[id].pending,
    ensures
        tasks.update(
            id,
            Task { priority: tasks[id].priority, binding: tasks[id].binding, pending: true },
        ) == tasks,
{
    assert(tasks.update(
        id,
        Task { priority: tasks[id].priority, binding: tasks[id].binding, pending: true },
    ) =~= tasks);
}

/// Preemption ordering: of two tasks pending at the same instant, the
/// higher-priority one completes before any part of the lower-priority
/// one's body runs. In a run-to-completion order whose priorities never
/// increase along it — what `drain` produces — the higher-priority task's
/// position strictly precedes the lower's.
pub proof fn lemma_preemption_order(
    d: Dispatcher,
    order: Seq<usize>,
    a: usize,
    b: usize,
    ka: int,
    kb: int,
)
    requires
        forall|k1: int, k2: int|
            0 <= k1 < k2 < order.len() ==> d.prio(order[k1] as int) >= d.prio(order[k2] as int),
        0 <= ka < order.len(),
        0 <= kb < order.len(),
        order[ka] == a,
        order[kb] == b,
        d.prio(a as int) > d.prio(b as int),
    ensures
        ka < kb,
{
    if kb < ka {
        assert(d.prio(order[kb] as int) >= d.prio(order[ka] as int));
    }
}

} // verus!
