//! Monotonic deadline scheduler over a free-running 32-bit tick counter.
//!
//! The counter wraps modulo 2^32, so "has this deadline elapsed" cannot be a
//! plain comparison: it is decided by the wrapped difference `now - deadline`,
//! which is below half the counter range exactly when the deadline lies at or
//! behind `now`. Each task has at most one outstanding booking; booking again
//! overwrites, which is also the cancellation mechanism. A periodic task
//! re-books from its *scheduled* tick, never from `now`, so its activation
//! grid has no cumulative drift.

use vstd::prelude::*;

use crate::dispatch::Dispatcher;

verus! {

/// The wrapped sum of two ticks, modulo 2^32.
pub open spec fn wrap_add(a: u32, b: u32) -> u32 {
    if a + b > u32::MAX {
        (a + b - 0x1_0000_0000) as u32
    } else {
        (a + b) as u32
    }
}

/// The distance from `from` forward to `now` on the wrapping tick circle:
/// an integer in `[0, 2^32)`.
pub open spec fn wrap_diff(now: u32, from: u32) -> int {
    if now >= from {
        now - from
    } else {
        now - from + 0x1_0000_0000
    }
}

/// A deadline counts as elapsed when it lies at or behind `now`, that is,
/// when the wrapped distance from the deadline to `now` is under half the
/// counter range. A deadline further ahead than half the range is
/// indistinguishable from one behind; bookings are assumed nearer than that.
pub open spec fn elapsed(now: u32, deadline: u32) -> bool {
    wrap_diff(now, deadline) < 0x8000_0000
}

/// Wrapping tick addition, the arithmetic behind `wrap_add`.
pub fn tick_add(a: u32, b: u32) -> (r: u32)
    ensures
        r == wrap_add(a, b),
{
    let room: u32 = u32::MAX - a;
    if b <= room {
        a + b
    } else {
        b - room - 1
    }
}

/// Wrap-aware deadline test: the signed-difference comparison in the
/// counter's width.
pub fn deadline_elapsed(now: u32, deadline: u32) -> (r: bool)
    ensures
        r == elapsed(now, deadline),
{
    if now >= deadline {
        now - deadline < 0x8000_0000
    } else {
        now + (u32::MAX - deadline) + 1 < 0x8000_0000
    }
}

/// Outstanding deadline bookings, one slot per task id. `None` means the
/// task has no scheduled activation; booking into an occupied slot
/// overwrites it, which is how an earlier booking is cancelled.
pub struct Monotonic {
    pub bookings: Vec<Option<u32>>,
}

impl Monotonic {
    /// The booking slot of a task, as seen by contracts.
    pub open spec fn booking(self, task: int) -> Option<u32> {
        self.bookings@[task]
    }

    pub open spec fn task_count(self) -> nat {
        self.bookings@.len()
    }

    /// A scheduler with `n` tasks and no outstanding booking.
    pub fn new(n: usize) -> (m: Monotonic)
        ensures
            m.task_count() == n,
            forall|t: int| 0 <= t < n ==> m.booking(t) is None,
    {
        let mut bookings: Vec<Option<u32>> = Vec::new();
        let mut i: usize = 0;
        while i < n
            invariant
                i <= n,
                bookings@.len() == i,
                forall|t: int| 0 <= t < i ==> bookings@[t] is None,
            decreases n - i,
        {
            bookings.push(None);
            i = i + 1;
        }
        Monotonic { bookings }
    }

    /// Insert or replace the booking of `task`: the single outstanding
    /// booking per task is overwritten, cancelling any earlier one.
    pub fn book(&mut self, task: usize, deadline: u32)
        requires
            task < old(self).task_count(),
        ensures
            final(self).task_count() == old(self).task_count(),
            final(self).booking(task as int) == Some(deadline),
            forall|t: int|
                0 <= t < old(self).task_count() && t != task
                    ==> final(self).booking(t) == old(self).booking(t),
    {
        self.bookings.set(task, Some(deadline));
    }
}

/// Whether a booking slot holds a deadline that has elapsed at `now`.
pub open spec fn due(slot: Option<u32>, now: u32) -> bool {
    slot matches Some(d) && elapsed(now, d)
}

impl Monotonic {
    /// Fire every booking whose deadline has elapsed at `now`: clear its
    /// slot and return its task id, leaving unelapsed bookings in place.
    pub fn due_tasks(&mut self, now: u32) -> (fired: Vec<usize>)
        ensures
            final(self).task_count() == old(self).task_count(),
            // an elapsed booking is removed and its task reported
            forall|t: int|
                0 <= t < old(self).task_count() && due(old(self).booking(t), now)
                    ==> final(self).booking(t) is None && fired@.contains(t as usize),
            // an unelapsed or absent booking is untouched
            forall|t: int|
                0 <= t < old(self).task_count() && !due(old(self).booking(t), now)
                    ==> final(self).booking(t) == old(self).booking(t),
            // only genuinely elapsed bookings are reported
            forall|k: int|
                0 <= k < fired@.len() ==> fired@[k] < old(self).task_count() && due(
                    old(self).booking(fired@[k] as int),
                    now,
                ),
    {
        let mut fired: Vec<usize> = Vec::new();
        let n: usize = self.bookings.len();
        let mut i: usize = 0;
        while i < n
            invariant
                i <= n,
                n == old(self).task_count(),
                self.task_count() == old(self).task_count(),
                forall|t: int|
                    0 <= t < i && due(old(self).booking(t), now) ==> self.booking(t) is None
                        && fired@.contains(t as usize),
                forall|t: int|
                    i <= t < n ==> self.booking(t) == old(self).booking(t),
                forall|t: int|
                    0 <= t < i && !due(old(self).booking(t), now)
                        ==> self.booking(t) == old(self).booking(t),
                forall|k: int|
                    0 <= k < fired@.len() ==> fired@[k] < n && due(
                        old(self).booking(fired@[k] as int),
                        now,
                    ),
            decreases n - i,
        {
            let slot: Option<u32> = self.bookings[i];
            if let Some(d) = slot {
                if deadline_elapsed(now, d) {
                    self.bookings.set(i, None);
                    let ghost prev_fired = fired@;
                    fired.push(i);
                    proof {
                        assert forall|x: usize| prev_fired.contains(x) implies fired@.contains(
                            x,
                        ) by {
                            let k = choose|k: int|
                                0 <= k < prev_fired.len() && prev_fired[k] == x;
                            assert(fired@[k] == x);
                        }
                        assert(fired@[fired@.len() - 1] == i);
                    }
                }
            }
            i = i + 1;
        }
        fired
    }

    /// Re-book a periodic task for its next activation. The next deadline is
    /// computed from the tick the current activation was *scheduled* for,
    /// never from the current time, so however long the activation itself
    /// ran, the booked grid stays `start, start + period, start + 2*period,
    /// ...` modulo the counter width.
    pub fn rebook_periodic(&mut self, task: usize, scheduled: u32, period: u32)
        requires
            task < old(self).task_count(),
        ensures
            final(self).task_count() == old(self).task_count(),
            final(self).booking(task as int) == Some(wrap_add(scheduled, period)),
            forall|t: int|
                0 <= t < old(self).task_count() && t != task
                    ==> final(self).booking(t) == old(self).booking(t),
    {
        let next: u32 = tick_add(scheduled, period);
        self.book(task, next);
    }

    /// One tick-source interrupt: every booking whose deadline has elapsed
    /// at `now` is removed and its task's pending marker raised in the
    /// dispatcher — the scheduler merges with the dispatcher through
    /// nothing but `mark_pending`. Unelapsed bookings, every other pending
    /// flag, and all priorities and bindings are untouched.
    #[verifier::rlimit(50)]
    pub fn service_tick(&mut self, d: &mut Dispatcher, now: u32)
        requires
            old(self).task_count() == old(d).task_count(),
        ensures
            final(self).task_count() == old(self).task_count(),
            final(d).task_count() == old(d).task_count(),
            forall|t: int|
                0 <= t < old(self).task_count() && due(old(self).booking(t), now)
                    ==> final(self).booking(t) is None,
            forall|t: int|
                0 <= t < old(self).task_count() && !due(old(self).booking(t), now)
                    ==> final(self).booking(t) == old(self).booking(t),
            forall|t: int|
                0 <= t < old(d).task_count() ==> final(d).prio(t) == old(d).prio(t)
                    && final(d).tasks@[t].binding == old(d).tasks@[t].binding,
            forall|t: int|
                0 <= t < old(d).task_count() ==> (final(d).is_pending(t) <==> old(d).is_pending(t)
                    || due(old(self).booking(t), now)),
    {
        let n_tasks: usize = d.tasks.len();
        let fired: Vec<usize> = self.due_tasks(now);
        let n: usize = fired.len();
        let mut i: usize = 0;
        while i < n
            invariant
                i <= n,
                n == fired@.len(),
                old(d).task_count() == n_tasks,
                d.task_count() == old(d).task_count(),
                old(self).task_count() == old(d).task_count(),
                forall|k: int|
                    0 <= k < fired@.len() ==> fired@[k] < old(d).task_count() && due(
                        old(self).booking(fired@[k] as int),
                        now,
                    ),
                forall|t: int|
                    0 <= t < old(self).task_count() && due(old(self).booking(t), now)
                        ==> fired@.contains(t as usize),
                forall|t: int|
                    0 <= t < old(d).task_count() ==> d.prio(t) == old(d).prio(t)
                        && d.tasks@[t].binding == old(d).tasks@[t].binding,
                forall|t: int|
                    0 <= t < old(d).task_count() ==> (d.is_pending(t) <==> old(d).is_pending(t)
                        || fired@.take(i as int).contains(t as usize)),
            decreases n - i,
        {
            let ghost prev_tasks = d.tasks@;
            let task: usize = fired[i];
            proof {
                assert forall|t: int|
                    0 <= t < old(d).task_count() implies ((#[trigger] prev_tasks[t]).pending
                    <==> old(d).is_pending(t) || fired@.take(i as int).contains(
                    t as usize,
                )) by {
                    assert(d.is_pending(t) == prev_tasks[t].pending);
                }
            }
            d.mark_pending(task);
            proof {
                assert forall|t: int|
                    0 <= t < old(d).task_count() implies d.prio(t) == old(d).prio(t)
                    && d.tasks@[t].binding == old(d).tasks@[t].binding by {
                    if t != task as int {
                        assert(d.tasks@[t] == prev_tasks[t]);
                    } else {
                        assert(d.tasks@[t].priority == prev_tasks[t].priority);
                        assert(d.tasks@[t].binding == prev_tasks[t].binding);
                    }
                }
                assert forall|t: int|
                    0 <= t < old(d).task_count() implies (d.is_pending(t) <==> old(
                    d,
                ).is_pending(t) || fired@.take(i + 1).contains(t as usize)) by {
                    if t == task as int {
                        assert(fired@.take(i + 1)[i as int] == task);
                        assert(fired@.take(i + 1).contains(task));
                        assert(d.is_pending(t));
                    } else {
                        assert(d.tasks@[t] == prev_tasks[t]);
                        assert(d.is_pending(t) == prev_tasks[t].pending);
                        assert(t as usize != task);
                        if d.is_pending(t) && !old(d).is_pending(t) {
                            assert(fired@.take(i as int).contains(t as usize));
                            let k = choose|k: int|
                                0 <= k < fired@.take(i as int).len() && #[trigger] fired@.take(
                                    i as int,
                                )[k] == t as usize;
                            assert(fired@.take(i + 1)[k] == t as usize);
                            assert(fired@.take(i + 1).contains(t as usize));
                        }
                        if fired@.take(i + 1).contains(t as usize) {
                            let k = choose|k: int|
                                0 <= k < i + 1 && #[trigger] fired@.take(i + 1)[k] == t as usize;
                            assert(k < i);
                            assert(fired@.take(i as int)[k] == t as usize);
                            assert(fired@.take(i as int).contains(t as usize));
                        }
                        assert(prev_tasks[t].pending <==> old(d).is_pending(t) || fired@.take(
                            i as int,
                        ).contains(t as usize));
                    }
                }
            }
            i = i + 1;
        }
        proof {
            assert(fired@.take(n as int) =~= fired@);
            assert forall|t: int|
                0 <= t < old(d).task_count() implies (d.is_pending(t) <==> old(d).is_pending(t)
                || due(old(self).booking(t), now)) by {
                if fired@.contains(t as usize) {
                    let k = choose|k: int| 0 <= k < fired@.len() && fired@[k] == t as usize;
                    assert(due(old(self).booking(fired@[k] as int), now));
                }
            }
        }
    }
}

/// The activation grid of a periodic task: the tick of the `k`-th scheduled
/// activation after `start`, on the wrapping counter. Each step re-books
/// from the previous *scheduled* tick, as `rebook_periodic` does.
pub open spec fn nth_activation(start: u32, period: u32, k: nat) -> u32
    decreases k,
{
    if k == 0 {
        start
    } else {
        wrap_add(nth_activation(start, period, (k - 1) as nat), period)
    }
}

/// The wrapped sum is ordinary addition modulo the counter width.
pub proof fn lemma_wrap_add_is_mod(a: u32, b: u32)
    ensures
        wrap_add(a, b) == (a + b) % 0x1_0000_0000,
{
    if a + b > u32::MAX {
        vstd::arithmetic::div_mod::lemma_mod_multiples_vanish(
            1,
            a + b - 0x1_0000_0000,
            0x1_0000_0000,
        );
        vstd::arithmetic::div_mod::lemma_small_mod(
            (a + b - 0x1_0000_0000) as nat,
            0x1_0000_0000,
        );
    } else {
        vstd::arithmetic::div_mod::lemma_small_mod((a + b) as nat, 0x1_0000_0000);
    }
}

/// Bounded drift of periodic re-booking: the `k`-th scheduled activation is
/// exactly `start + k * period` modulo the counter width — the grid depends
/// only on the first scheduled tick and the period, never on how long any
/// activation actually ran, so no drift accumulates.
pub proof fn lemma_periodic_no_drift(start: u32, period: u32, k: nat)
    ensures
        nth_activation(start, period, k) == (start + k * period) % 0x1_0000_0000,
    decreases k,
{
    if k == 0 {
        assert(k * period == 0) by (nonlinear_arith)
            requires k == 0;
        vstd::arithmetic::div_mod::lemma_small_mod(start as nat, 0x1_0000_0000);
    } else {
        let km1 = (k - 1) as nat;
        lemma_periodic_no_drift(start, period, km1);
        let prev = nth_activation(start, period, km1);
        lemma_wrap_add_is_mod(prev, period);
        vstd::arithmetic::div_mod::lemma_small_mod(period as nat, 0x1_0000_0000);
        vstd::arithmetic::div_mod::lemma_add_mod_noop(
            start + km1 * period,
            period as int,
            0x1_0000_0000,
        );
        assert(start + km1 * period + period == start + k * period) by (nonlinear_arith)
            requires km1 + 1 == k;
    }
}

/// Deadline wrap: a deadline booked a positive distance under half the
/// counter range ahead of `now` — even one that lies numerically below
/// `now` because the counter is about to wrap — is not yet elapsed at
/// `now`, and is elapsed the moment the counter reaches it.
pub proof fn lemma_future_deadline_pending(now: u32, delta: u32)
    requires
        0 < delta < 0x8000_0000,
    ensures
        !elapsed(now, wrap_add(now, delta)),
        elapsed(wrap_add(now, delta), wrap_add(now, delta)),
{
}

} // verus!

