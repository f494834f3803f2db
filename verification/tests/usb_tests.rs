use rtcore::usb::{
    next_counter, serial_echo_step, synth_report, transform_upper, write_all, MockTransport,
    MouseReport, ReportQueue, UsbError,
};

#[test]
fn hello_echoes_as_upper_case() {
    // "hello" in: exactly "HELLO" out, across a transport that accepts one
    // byte per offer; five bytes total, never more
    let mut t = MockTransport::new(1, true);
    let received: Vec<u8> = b"hello".to_vec();
    let r = serial_echo_step(&mut t, true, &received);
    assert_eq!(r, Ok(5));
    assert_eq!(t.accepted, b"HELLO".to_vec());
}

#[test]
fn transform_folds_only_lower_case_letters() {
    let input: Vec<u8> = b"Hello, World! az{`".to_vec();
    assert_eq!(transform_upper(&input), b"HELLO, WORLD! AZ{`".to_vec());
    assert_eq!(transform_upper(&vec![0x60, 0x61, 0x7a, 0x7b]), vec![0x60, 0x41, 0x5a, 0x7b]);
    assert_eq!(transform_upper(&Vec::new()), Vec::<u8>::new());
}

#[test]
fn partial_writes_drain_the_whole_buffer() {
    let mut t = MockTransport::new(2, true);
    let data: Vec<u8> = b"ABCDE".to_vec();
    assert_eq!(write_all(&mut t, &data), Ok(5));
    assert_eq!(t.accepted, b"ABCDE".to_vec());
}

#[test]
fn disconnect_abandons_the_write() {
    let mut t = MockTransport::new(8, false);
    let r = write_all(&mut t, &b"ABC".to_vec());
    assert_eq!(r, Err(UsbError::Disconnected));
    assert_eq!(t.accepted, Vec::<u8>::new());
}

#[test]
fn no_activity_and_empty_reads_are_no_ops() {
    let mut t = MockTransport::new(4, true);
    assert_eq!(serial_echo_step(&mut t, false, &b"hello".to_vec()), Ok(0));
    assert_eq!(t.accepted, Vec::<u8>::new());
    assert_eq!(serial_echo_step(&mut t, true, &Vec::new()), Ok(0));
    assert_eq!(t.accepted, Vec::<u8>::new());
}

#[test]
fn report_sweeps_right_then_left() {
    let right = synth_report(0, false);
    assert_eq!(right, MouseReport { x: 3, y: 0, buttons: 0, wheel: 0 });
    let still_right = synth_report(63, true);
    assert_eq!(still_right, MouseReport { x: 3, y: 0, buttons: 1, wheel: 0 });
    let left = synth_report(64, false);
    assert_eq!(left, MouseReport { x: -3, y: 0, buttons: 0, wheel: 0 });
    let still_left = synth_report(127, true);
    assert_eq!(still_left, MouseReport { x: -3, y: 0, buttons: 1, wheel: 0 });
}

#[test]
fn counter_cycles_through_128_ticks() {
    assert_eq!(next_counter(0), 1);
    assert_eq!(next_counter(63), 64);
    assert_eq!(next_counter(126), 127);
    assert_eq!(next_counter(127), 0);
}

#[test]
fn full_report_queue_drops_silently() {
    let mut q = ReportQueue::new(2);
    let r = synth_report(0, false);
    assert!(q.push_report(r));
    assert!(q.push_report(r));
    // the endpoint buffer is full: the report is dropped, not queued
    assert!(!q.push_report(r));
    assert_eq!(q.items.len(), 2);
}

#[test]
fn report_queue_drains_in_arrival_order() {
    let mut q = ReportQueue::new(4);
    let first = synth_report(0, false);
    let second = synth_report(64, true);
    assert!(q.push_report(first));
    assert!(q.push_report(second));
    assert_eq!(q.pop_report(), Some(first));
    assert_eq!(q.pop_report(), Some(second));
    assert_eq!(q.pop_report(), None);
}
