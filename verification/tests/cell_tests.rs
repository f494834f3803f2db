use rtcore::cell::{ceiling_of, lock_enter, lock_exit, toggle_pin, AccessEvent, LockLog, ResourceCell};

#[test]
fn ceiling_is_the_highest_accessor_priority() {
    assert_eq!(ceiling_of(&vec![1, 5, 3]), 5);
    assert_eq!(ceiling_of(&vec![2]), 2);
    assert_eq!(ceiling_of(&vec![4, 4]), 4);
    assert_eq!(ceiling_of(&Vec::new()), 0);
}

#[test]
fn lock_raises_to_the_ceiling_and_restores() {
    let mut effective: u8 = 1;
    let saved = lock_enter(&mut effective, 4);
    assert_eq!(saved, 1);
    assert_eq!(effective, 4);
    lock_exit(&mut effective, saved);
    assert_eq!(effective, 1);
}

#[test]
fn lock_at_or_above_the_ceiling_keeps_the_level() {
    let mut effective: u8 = 6;
    let saved = lock_enter(&mut effective, 4);
    assert_eq!(saved, 6);
    assert_eq!(effective, 6);
    lock_exit(&mut effective, saved);
    assert_eq!(effective, 6);
}

#[test]
fn nested_locks_restore_in_lifo_order() {
    let mut effective: u8 = 1;
    let saved_outer = lock_enter(&mut effective, 3);
    let saved_inner = lock_enter(&mut effective, 5);
    assert_eq!(effective, 5);
    lock_exit(&mut effective, saved_inner);
    assert_eq!(effective, 3);
    lock_exit(&mut effective, saved_outer);
    assert_eq!(effective, 1);
}

#[test]
fn cell_read_and_write_under_the_ceiling_rule() {
    let mut led = ResourceCell::new(false, 3);
    assert_eq!(*led.read(3), false);
    led.write(4, true);
    assert_eq!(*led.read(5), true);
}

#[test]
fn toggle_flips_the_pin_state() {
    let mut led = ResourceCell::new(false, 2);
    toggle_pin(&mut led, 2);
    assert_eq!(*led.read(2), true);
    toggle_pin(&mut led, 2);
    assert_eq!(*led.read(2), false);
}

#[test]
fn lock_log_records_non_overlapping_scopes() {
    // a scope on the i2c cell, then one on the led cell nested in a second
    // scope on the i2c cell's sibling: enter/exit pairs never interleave on
    // one cell
    let i2c_cell: usize = 0;
    let led_cell: usize = 1;
    let mut log = LockLog::new();
    log.enter(i2c_cell);
    log.exit();
    log.enter(led_cell);
    log.enter(i2c_cell);
    log.exit();
    log.exit();
    let expect = vec![
        AccessEvent { cell: i2c_cell, enter: true },
        AccessEvent { cell: i2c_cell, enter: false },
        AccessEvent { cell: led_cell, enter: true },
        AccessEvent { cell: i2c_cell, enter: true },
        AccessEvent { cell: i2c_cell, enter: false },
        AccessEvent { cell: led_cell, enter: false },
    ];
    assert_eq!(log.trace, expect);
    assert_eq!(log.open_cells, Vec::<usize>::new());
}
