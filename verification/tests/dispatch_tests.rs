use rtcore::dispatch::{Binding, Dispatcher, RunStack};

#[test]
fn register_assigns_sequential_ids() {
    let mut d = Dispatcher::new();
    let a = d.register(3, Binding::Interrupt(40));
    let b = d.register(1, Binding::Software);
    assert_eq!(a, 0);
    assert_eq!(b, 1);
}

#[test]
fn mark_pending_is_coalesced() {
    let mut d = Dispatcher::new();
    let a = d.register(2, Binding::Interrupt(6));
    d.mark_pending(a);
    d.mark_pending(a);
    d.mark_pending(a);
    // a reentrant activation folds into one pending flag: one drain runs it once
    let order = d.drain();
    assert_eq!(order, vec![a]);
}

#[test]
fn higher_priority_runs_first() {
    // two tasks pending at the same instant: the higher-priority one
    // completes before any part of the lower one runs
    let mut d = Dispatcher::new();
    let low = d.register(1, Binding::Software);
    let high = d.register(5, Binding::Interrupt(18));
    d.mark_pending(low);
    d.mark_pending(high);
    let order = d.drain();
    assert_eq!(order, vec![high, low]);
}

#[test]
fn drain_runs_all_pending_by_priority() {
    let mut d = Dispatcher::new();
    let t1 = d.register(1, Binding::Software);
    let t2 = d.register(4, Binding::Software);
    let t3 = d.register(2, Binding::Interrupt(7));
    let t4 = d.register(3, Binding::Software);
    d.mark_pending(t1);
    d.mark_pending(t2);
    d.mark_pending(t3);
    d.mark_pending(t4);
    let order = d.drain();
    assert_eq!(order, vec![t2, t4, t3, t1]);
}

#[test]
fn drain_skips_tasks_that_are_not_pending() {
    let mut d = Dispatcher::new();
    let _idle_helper = d.register(1, Binding::Software);
    let worker = d.register(2, Binding::Software);
    d.mark_pending(worker);
    let order = d.drain();
    assert_eq!(order, vec![worker]);
    // a second drain with nothing pending runs nothing
    let order2 = d.drain();
    assert_eq!(order2, Vec::<usize>::new());
}

#[test]
fn next_ready_respects_the_floor() {
    let mut d = Dispatcher::new();
    let lo = d.register(2, Binding::Software);
    let hi = d.register(6, Binding::Software);
    d.mark_pending(lo);
    d.mark_pending(hi);
    // below both priorities: the higher one is picked
    assert_eq!(d.next_ready(0), Some(hi));
    // at the higher priority, nothing clears the preemption test
    assert_eq!(d.next_ready(6), None);
    // between the two, only the higher clears it
    assert_eq!(d.next_ready(2), Some(hi));
}

#[test]
fn preemption_nests_and_returns_lifo() {
    let mut d = Dispatcher::new();
    let low = d.register(1, Binding::Software);
    let mid = d.register(3, Binding::Interrupt(6));
    let high = d.register(5, Binding::Interrupt(67));
    let mut stack = RunStack::new();

    // the low task starts from idle
    d.mark_pending(low);
    assert_eq!(stack.try_preempt(&mut d), Some(low));
    assert_eq!(stack.floor(&d), 1);

    // mid fires and preempts low; high fires and preempts mid
    d.mark_pending(mid);
    assert_eq!(stack.try_preempt(&mut d), Some(mid));
    d.mark_pending(high);
    assert_eq!(stack.try_preempt(&mut d), Some(high));
    assert_eq!(stack.frames, vec![low, mid, high]);

    // an equal-priority activation cannot preempt the running level
    d.mark_pending(high);
    assert_eq!(stack.try_preempt(&mut d), None);

    // activations unwind in LIFO order: each finisher resumes its preemptee
    assert_eq!(stack.retire(&d), high);
    assert_eq!(stack.floor(&d), 3);
    // the re-raised high activation now clears the test and runs again
    assert_eq!(stack.try_preempt(&mut d), Some(high));
    assert_eq!(stack.retire(&d), high);
    assert_eq!(stack.retire(&d), mid);
    assert_eq!(stack.retire(&d), low);
    assert_eq!(stack.floor(&d), 0);
}

#[test]
fn ties_go_to_the_lowest_id() {
    let mut d = Dispatcher::new();
    let first = d.register(3, Binding::Software);
    let second = d.register(3, Binding::Software);
    d.mark_pending(first);
    d.mark_pending(second);
    assert_eq!(d.next_ready(0), Some(first));
}
