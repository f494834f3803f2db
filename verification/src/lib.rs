//! A verified model of a small interrupt-driven firmware substrate: a fixed
//! set of tasks at static priorities, preemptive highest-ready-first dispatch,
//! priority-ceiling protection of shared peripheral state, a wrap-safe
//! monotonic deadline scheduler, and the protocol handlers that ride on top
//! of it (an I2C register-transaction sequencer, a USB HID report pump and a
//! CDC-serial echo transform).

pub mod cell;
pub mod dispatch;
pub mod i2c;
pub mod monotonic;
pub mod usb;
