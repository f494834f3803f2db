//! Resource cells and the priority-ceiling lock protocol.
//!
//! A resource cell wraps one piece of shared peripheral state and carries a
//! fixed ceiling: the highest priority of any task permitted to touch it. A
//! task may access the cell only while its effective running priority is at
//! or above that ceiling; `lock_enter` raises the effective priority for the
//! scope and `lock_exit` restores the saved one on the way out. On a single
//! core this serializes all access to the cell: while a scope is open no
//! accessor of the cell clears the preemption test, so a second scope on the
//! same cell can never begin — `lemma_ceiling_blocks_accessors` states that,
//! and `LockLog` records enter/exit events and shows the scopes non-overlapping.

use vstd::prelude::*;

use crate::dispatch::Dispatcher;

verus! {

/// One piece of shared peripheral state behind a ceiling.
pub struct ResourceCell<T> {
    pub value: T,
    pub ceiling: u8,
}

impl<T> ResourceCell<T> {
    /// Wrap a peripheral value with its ceiling, computed at system
    /// definition from the priorities of the tasks that may access it.
    pub fn new(value: T, ceiling: u8) -> (c: ResourceCell<T>)
        ensures
            c.value == value,
            c.ceiling == ceiling,
    {
        ResourceCell { value, ceiling }
    }

    /// Read the protected value. Permitted only at or above the ceiling:
    /// the sole access path is from inside a lock scope.
    pub fn read(&self, effective: u8) -> (r: &T)
        requires
            effective >= self.ceiling,
        ensures
            r == &self.value,
    {
        &self.value
    }

    /// Replace the protected value, under the same ceiling rule.
    pub fn write(&mut self, effective: u8, v: T)
        requires
            effective >= old(self).ceiling,
        ensures
            final(self).value == v,
            final(self).ceiling == old(self).ceiling,
    {
        self.value = v;
    }
}

/// Toggle a cell-protected output pin, the body of the blink and
/// button-press tasks.
pub fn toggle_pin(cell: &mut ResourceCell<bool>, effective: u8)
    requires
        effective >= old(cell).ceiling,
    ensures
        final(cell).value == !old(cell).value,
        final(cell).ceiling == old(cell).ceiling,
{
    let cur: bool = *cell.read(effective);
    cell.write(effective, !cur);
}

/// The ceiling of a cell: the highest priority among the tasks statically
/// permitted to access it, or 0 when no task may (then no access is ever
/// legal below any raise).
pub fn ceiling_of(accessor_priorities: &Vec<u8>) -> (c: u8)
    ensures
        forall|i: int| 0 <= i < accessor_priorities@.len() ==> accessor_priorities@[i] <= c,
        accessor_priorities@.len() > 0 ==> exists|i: int|
            0 <= i < accessor_priorities@.len() && accessor_priorities@[i] == c,
        accessor_priorities@.len() == 0 ==> c == 0,
{
    let mut c: u8 = 0;
    let n: usize = accessor_priorities.len();
    let mut i: usize = 0;
    while i < n
        invariant
            i <= n,
            n == accessor_priorities@.len(),
            forall|j: int| 0 <= j < i ==> accessor_priorities@[j] <= c,
            i > 0 ==> exists|j: int| 0 <= j < i && accessor_priorities@[j] == c,
            i == 0 ==> c == 0,
        decreases n - i,
    {
        let p: u8 = accessor_priorities[i];
        if p > c || i == 0 {
            c = p;
        }
        i = i + 1;
    }
    c
}

/// Raise the effective running priority to at least `ceiling` for a lock
/// scope, returning the prior level for `lock_exit` to restore.
pub fn lock_enter(effective: &mut u8, ceiling: u8) -> (saved: u8)
    ensures
        saved == *old(effective),
        *final(effective) == if ceiling > *old(effective) {
            ceiling
        } else {
            *old(effective)
        },
        *final(effective) >= ceiling,
        *final(effective) >= *old(effective),
{
    let saved: u8 = *effective;
    if ceiling > *effective {
        *effective = ceiling;
    }
    saved
}

/// Restore the effective priority saved by the matching `lock_enter`; this
/// runs on every exit path of the scope.
pub fn lock_exit(effective: &mut u8, saved: u8)
    ensures
        *final(effective) == saved,
{
    *effective = saved;
}

/// The heart of the ceiling protocol: while an execution context holds a
/// lock on a cell (so its effective priority is at or above the cell's
/// ceiling), no task whose priority is at or below that ceiling — in
/// particular, every task permitted to access the cell, by the definition
/// of the ceiling — can pass the dispatcher's preemption test. The running
/// scope therefore finishes before any other access to the cell can start.
pub proof fn lemma_ceiling_blocks_accessors(d: Dispatcher, effective: u8, ceiling: u8, t: int)
    requires
        0 <= t < d.task_count(),
        effective >= ceiling,
        d.prio(t) <= ceiling,
    ensures
        !(d.prio(t) > effective),
{
}

/// One observable access event on a resource cell: a lock scope opening or
/// closing.
#[derive(Clone, Copy, PartialEq, Eq, Structural, Debug)]
pub struct AccessEvent {
    pub cell: usize,
    pub enter: bool,
}

/// Scopes of `cell` open at the end of a trace: enters minus exits.
pub open spec fn scope_depth(trace: Seq<AccessEvent>, cell: usize) -> int
    decreases trace.len(),
{
    if trace.len() == 0 {
        0
    } else {
        scope_depth(trace.drop_last(), cell) + if trace.last().cell == cell {
            if trace.last().enter {
                1int
            } else {
                -1int
            }
        } else {
            0int
        }
    }
}

/// No interleaving of two lock scopes on the same cell, and no exit without
/// its enter: along every prefix of the trace, each cell has zero or one
/// scope open.
pub open spec fn serialized(trace: Seq<AccessEvent>) -> bool {
    forall|n: int, c: usize|
        0 <= n <= trace.len() ==> 0 <= #[trigger] scope_depth(trace.take(n), c) <= 1
}

/// A record of lock-scope enter/exit events, as produced by a single-core
/// execution under the ceiling protocol: scopes nest (LIFO) and, because a
/// held ceiling keeps every other accessor of the cell from running, a cell
/// whose scope is open is never entered again until that scope exits.
pub struct LockLog {
    pub trace: Vec<AccessEvent>,
    pub open_cells: Vec<usize>,
}

impl LockLog {
    /// The log is consistent: the open stack has no duplicate cell, each
    /// open cell has exactly one scope open in the trace, and the trace so
    /// far is serialized.
    pub open spec fn wf(self) -> bool {
        &&& forall|i: int, j: int|
            0 <= i < j < self.open_cells@.len() ==> self.open_cells@[i] != self.open_cells@[j]
        &&& forall|c: usize|
            #[trigger] scope_depth(self.trace@, c) == if self.open_cells@.contains(c) {
                1int
            } else {
                0int
            }
        &&& serialized(self.trace@)
    }

    pub fn new() -> (log: LockLog)
        ensures
            log.wf(),
            log.trace@.len() == 0,
            log.open_cells@.len() == 0,
    {
        let log = LockLog { trace: Vec::new(), open_cells: Vec::new() };
        proof {
            assert forall|n: int, c: usize|
                0 <= n <= log.trace@.len() implies 0 <= #[trigger] scope_depth(
                log.trace@.take(n),
                c,
            ) <= 1 by {
                assert(log.trace@.take(n) =~= log.trace@);
            }
        }
        log
    }

    /// Open a lock scope on `cell`. Under the ceiling protocol the cell
    /// cannot already be open: every task that could open it is kept from
    /// running while a scope on it is held (`lemma_ceiling_blocks_accessors`).
    pub fn enter(&mut self, cell: usize)
        requires
            old(self).wf(),
            !old(self).open_cells@.contains(cell),
        ensures
            final(self).wf(),
            final(self).trace@ == old(self).trace@.push(AccessEvent { cell, enter: true }),
            final(self).open_cells@ == old(self).open_cells@.push(cell),
    {
        let ghost t0 = self.trace@;
        let ghost o0 = self.open_cells@;
        self.trace.push(AccessEvent { cell, enter: true });
        self.open_cells.push(cell);
        proof {
            let t1 = self.trace@;
            let o1 = self.open_cells@;
            assert(t1.drop_last() =~= t0);
            // membership in the pushed stack
            assert forall|c: usize| o1.contains(c) implies o0.contains(c) || c == cell by {
                let k = choose|k: int| 0 <= k < o1.len() && o1[k] == c;
                if k < o1.len() - 1 {
                    assert(o0[k] == c);
                }
            }
            assert forall|c: usize| o0.contains(c) implies o1.contains(c) by {
                let k = choose|k: int| 0 <= k < o0.len() && o0[k] == c;
                assert(o1[k] == c);
            }
            assert(o1[o1.len() - 1] == cell);
            assert forall|c: usize|
                #[trigger] scope_depth(t1, c) == if o1.contains(c) {
                    1int
                } else {
                    0int
                } by {
                assert(scope_depth(t0, c) == if o0.contains(c) {
                    1int
                } else {
                    0int
                });
            }
            assert forall|n: int, c: usize|
                0 <= n <= t1.len() implies 0 <= #[trigger] scope_depth(t1.take(n), c) <= 1 by {
                if n <= t0.len() {
                    assert(t1.take(n) =~= t0.take(n));
                } else {
                    assert(t1.take(n) =~= t1);
                }
            }
        }
    }

    /// Close the innermost open scope (scopes nest LIFO on a single core)
    /// and record the exit event.
    pub fn exit(&mut self)
        requires
            old(self).wf(),
            old(self).open_cells@.len() > 0,
        ensures
            final(self).wf(),
            final(self).trace@ == old(self).trace@.push(
                AccessEvent { cell: old(self).open_cells@.last(), enter: false },
            ),
            final(self).open_cells@ == old(self).open_cells@.drop_last(),
    {
        let ghost t0 = self.trace@;
        let ghost o0 = self.open_cells@;
        let top_idx: usize = self.open_cells.len() - 1;
        let top: usize = self.open_cells[top_idx];
        self.trace.push(AccessEvent { cell: top, enter: false });
        self.open_cells.pop();
        proof {
            let t1 = self.trace@;
            let o1 = self.open_cells@;
            assert(t1.drop_last() =~= t0);
            assert(o1 =~= o0.drop_last());
            // the popped cell leaves the stack: it appeared only on top
            assert forall|c: usize| o1.contains(c) implies o0.contains(c) && c != top by {
                let k = choose|k: int| 0 <= k < o1.len() && o1[k] == c;
                assert(o0[k] == c);
            }
            assert forall|c: usize| o0.contains(c) && c != top implies o1.contains(c) by {
                let k = choose|k: int| 0 <= k < o0.len() && o0[k] == c;
                assert(o1[k] == c);
            }
            assert(o0[o0.len() - 1] == top);
            assert forall|c: usize|
                #[trigger] scope_depth(t1, c) == if o1.contains(c) {
                    1int
                } else {
                    0int
                } by {
                assert(scope_depth(t0, c) == if o0.contains(c) {
                    1int
                } else {
                    0int
                });
            }
            assert forall|n: int, c: usize|
                0 <= n <= t1.len() implies 0 <= #[trigger] scope_depth(t1.take(n), c) <= 1 by {
                if n <= t0.len() {
                    assert(t1.take(n) =~= t0.take(n));
                } else {
                    assert(t1.take(n) =~= t1);
                }
            }
        }
    }
}

/// Serialization of lock scopes: in any consistent log — and `enter` / `exit`
/// keep every log consistent — no two scopes on the same cell interleave:
/// every prefix of the recorded trace has at most one scope per cell open.
pub proof fn lemma_lock_scopes_serialized(log: LockLog)
    requires
        log.wf(),
    ensures
        serialized(log.trace@),
{
}

} // verus!
