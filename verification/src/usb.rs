//! USB composite-device pump: a HID mouse-report path and a CDC-serial echo
//! path.
//!
//! The serial path receives inbound bytes on a USB interrupt activation,
//! case-folds them to upper case, and writes the transformed bytes back.
//! The transport may accept fewer bytes than offered, so the write loops,
//! re-offering the remaining suffix, until the whole transformed buffer is
//! flushed or the connection is gone; zero received bytes are a no-op, not
//! a failure. The HID path synthesizes one fixed-size input report per tick
//! from the current button and sweep-counter state, and enqueues it
//! best-effort: a full endpoint buffer silently drops the report.

use vstd::prelude::*;

verus! {

/// The serial write was abandoned: the host is gone.
#[derive(Clone, Copy, PartialEq, Eq, Structural, Debug)]
pub enum UsbError {
    Disconnected,
}

/// The case-folding echo transform: lower-case ASCII letters fold to upper
/// case, every other byte passes through.
pub open spec fn upper_byte(b: u8) -> u8 {
    if 0x61 <= b <= 0x7a {
        (b - 0x20) as u8
    } else {
        b
    }
}

/// Fold a whole inbound buffer to upper case, byte for byte; the output
/// length always equals the input length.
pub fn transform_upper(input: &Vec<u8>) -> (out: Vec<u8>)
    ensures
        out@.len() == input@.len(),
        forall|i: int| 0 <= i < input@.len() ==> out@[i] == upper_byte(input@[i]),
{
    let mut out: Vec<u8> = Vec::new();
    let n: usize = input.len();
    let mut i: usize = 0;
    while i < n
        invariant
            i <= n,
            n == input@.len(),
            out@.len() == i,
            forall|j: int| 0 <= j < i ==> out@[j] == upper_byte(input@[j]),
        decreases n - i,
    {
        let b: u8 = input[i];
        if 0x61 <= b && b <= 0x7a {
            out.push(b - 0x20);
        } else {
            out.push(b);
        }
        i = i + 1;
    }
    out
}

/// A mock serial transport. It records every byte it accepted, accepts at
/// most `max_chunk` bytes per offer (a USB bulk endpoint takes one packet
/// at a time), and accepts nothing once disconnected.
pub struct MockTransport {
    pub accepted: Vec<u8>,
    pub max_chunk: usize,
    pub connected: bool,
}

impl MockTransport {
    /// The transport accepts at least one byte per offer while connected.
    pub open spec fn wf(self) -> bool {
        self.max_chunk >= 1
    }

    pub fn new(max_chunk: usize, connected: bool) -> (t: MockTransport)
        requires
            max_chunk >= 1,
        ensures
            t.wf(),
            t.accepted@.len() == 0,
            t.max_chunk == max_chunk,
            t.connected == connected,
    {
        MockTransport { accepted: Vec::new(), max_chunk, connected }
    }

    /// Offer the suffix of `data` starting at `from`; the transport takes
    /// some prefix of it, at most `max_chunk` bytes, or fails when the
    /// host is gone.
    pub fn offer(&mut self, data: &Vec<u8>, from: usize) -> (r: Result<usize, UsbError>)
        requires
            old(self).wf(),
            from <= data@.len(),
        ensures
            final(self).wf(),
            final(self).max_chunk == old(self).max_chunk,
            final(self).connected == old(self).connected,
            match r {
                Ok(n) => {
                    &&& old(self).connected
                    &&& n == if data@.len() - from < old(self).max_chunk {
                        data@.len() - from
                    } else {
                        old(self).max_chunk as int
                    }
                    &&& final(self).accepted@ == old(self).accepted@ + data@.subrange(
                        from as int,
                        from + n,
                    )
                },
                Err(e) => {
                    &&& !old(self).connected
                    &&& e == UsbError::Disconnected
                    &&& final(self).accepted@ == old(self).accepted@
                },
            },
    {
        if !self.connected {
            return Err(UsbError::Disconnected);
        }
        let dlen: usize = data.len();
        let remaining: usize = dlen - from;
        let n: usize = if remaining < self.max_chunk {
            remaining
        } else {
            self.max_chunk
        };
        let mut i: usize = 0;
        while i < n
            invariant
                i <= n,
                dlen == data@.len(),
                from + n <= dlen,
                self.accepted@ == old(self).accepted@ + data@.subrange(
                    from as int,
                    from + i,
                ),
                self.max_chunk == old(self).max_chunk,
                self.connected == old(self).connected,
                old(self).wf(),
                self.wf(),
            decreases n - i,
        {
            self.accepted.push(data[from + i]);
            proof {
                assert(self.accepted@ =~= old(self).accepted@ + data@.subrange(
                    from as int,
                    from + i + 1,
                ));
            }
            i = i + 1;
        }
        proof {
            if n == 0 {
                assert(self.accepted@ =~= old(self).accepted@ + data@.subrange(
                    from as int,
                    from as int,
                ));
            }
        }
        Ok(n)
    }
}

/// Write a whole buffer through a transport that may accept only part of
/// each offer: loop, re-offering the remaining suffix, until everything is
/// flushed or the host disconnects. On success the transport accepted
/// exactly the buffer — the total written never exceeds the buffer's
/// length — and on disconnect the transaction is abandoned with the
/// transport's record unchanged.
pub fn write_all(t: &mut MockTransport, data: &Vec<u8>) -> (r: Result<usize, UsbError>)
    requires
        old(t).wf(),
    ensures
        final(t).wf(),
        final(t).max_chunk == old(t).max_chunk,
        final(t).connected == old(t).connected,
        match r {
            Ok(total) => {
                &&& old(t).connected
                &&& total == data@.len()
                &&& final(t).accepted@ == old(t).accepted@ + data@
            },
            Err(e) => {
                &&& !old(t).connected
                &&& e == UsbError::Disconnected
                &&& final(t).accepted@ == old(t).accepted@
            },
        },
{
    if !t.connected {
        return Err(UsbError::Disconnected);
    }
    let mut written: usize = 0;
    let total_len: usize = data.len();
    while written < total_len
        invariant
            written <= total_len,
            total_len == data@.len(),
            t.wf(),
            t.max_chunk == old(t).max_chunk,
            t.connected == old(t).connected,
            old(t).connected,
            t.accepted@ == old(t).accepted@ + data@.subrange(0, written as int),
        decreases total_len - written,
    {
        let r = t.offer(data, written);
        match r {
            Ok(n) => {
                proof {
                    assert(t.accepted@ =~= old(t).accepted@ + data@.subrange(
                        0,
                        written + n,
                    ));
                }
                written = written + n;
            },
            Err(e) => {
                proof {
                    if written == 0 {
                        assert(t.accepted@ =~= old(t).accepted@);
                    }
                }
                return Err(e);
            },
        }
    }
    proof {
        assert(data@.subrange(0, total_len as int) =~= data@);
        if total_len == 0 {
            assert(t.accepted@ =~= old(t).accepted@ + data@);
        }
    }
    Ok(written)
}

/// One serial-path activation of the USB interrupt task: if the poll saw
/// no activity or nothing was received, do nothing; otherwise fold the
/// received bytes to upper case and write the whole transformed buffer
/// back, tolerating partial accepts. The total echoed never exceeds the
/// transformed length, which equals the received length.
pub fn serial_echo_step(t: &mut MockTransport, poll_activity: bool, received: &Vec<u8>) -> (r:
    Result<usize, UsbError>)
    requires
        old(t).wf(),
    ensures
        final(t).wf(),
        final(t).max_chunk == old(t).max_chunk,
        final(t).connected == old(t).connected,
        !poll_activity || received@.len() == 0 ==> final(t).accepted@ == old(t).accepted@ && r
            == Ok::<usize, UsbError>(0),
        poll_activity && received@.len() > 0 ==> match r {
            Ok(total) => {
                &&& old(t).connected
                &&& total == received@.len()
                &&& final(t).accepted@ == old(t).accepted@ + received@.map_values(
                    |b: u8| upper_byte(b),
                )
            },
            Err(e) => {
                &&& !old(t).connected
                &&& e == UsbError::Disconnected
                &&& final(t).accepted@ == old(t).accepted@
            },
        },
{
    if !poll_activity {
        return Ok(0);
    }
    if received.len() == 0 {
        return Ok(0);
    }
    let folded: Vec<u8> = transform_upper(received);
    proof {
        assert(folded@ =~= received@.map_values(|b: u8| upper_byte(b)));
    }
    write_all(t, &folded)
}

/// The HID boot-mouse input report: signed x and y deltas, a button
/// bitmask, and a signed wheel delta — four bytes regenerated on each
/// poll tick.
#[derive(Clone, Copy, PartialEq, Eq, Structural, Debug)]
pub struct MouseReport {
    pub x: i8,
    pub y: i8,
    pub buttons: u8,
    pub wheel: i8,
}

/// Synthesize the demo's report from the sweep counter and the button
/// state: the pointer sweeps right for the first half of the counter's
/// cycle and left for the second, the primary button mirrors the physical
/// one.
pub fn synth_report(counter: u8, button_pressed: bool) -> (r: MouseReport)
    ensures
        r.x == if counter < 64 {
            3int
        } else {
            -3int
        },
        r.y == 0,
        r.buttons == if button_pressed {
            1u8
        } else {
            0u8
        },
        r.wheel == 0,
{
    MouseReport {
        x: if counter < 64 {
            3
        } else {
            -3
        },
        y: 0,
        buttons: if button_pressed {
            1
        } else {
            0
        },
        wheel: 0,
    }
}

/// Advance the sweep counter through its cycle of 128 ticks.
pub fn next_counter(counter: u8) -> (r: u8)
    requires
        counter < 128,
    ensures
        r == (counter + 1) % 128,
        r < 128,
{
    (counter + 1) % 128
}

/// The endpoint's report buffer: bounded, first-in first-out, and
/// best-effort — a report offered to a full buffer is silently dropped,
/// never queued twice and never retried.
pub struct ReportQueue {
    pub items: Vec<MouseReport>,
    pub capacity: usize,
}

impl ReportQueue {
    pub open spec fn wf(self) -> bool {
        self.items@.len() <= self.capacity
    }

    pub fn new(capacity: usize) -> (q: ReportQueue)
        ensures
            q.wf(),
            q.items@.len() == 0,
            q.capacity == capacity,
    {
        ReportQueue { items: Vec::new(), capacity }
    }

    /// Enqueue one report unless the buffer is full; reports are dropped,
    /// not blocked on, when the endpoint is behind.
    pub fn push_report(&mut self, r: MouseReport) -> (accepted: bool)
        requires
            old(self).wf(),
        ensures
            final(self).wf(),
            final(self).capacity == old(self).capacity,
            accepted <==> old(self).items@.len() < old(self).capacity,
            accepted ==> final(self).items@ == old(self).items@.push(r),
            !accepted ==> final(self).items@ == old(self).items@,
    {
        if self.items.len() < self.capacity {
            self.items.push(r);
            true
        } else {
            false
        }
    }

    /// Drain the oldest report, as the endpoint sends them host-ward in
    /// arrival order.
    pub fn pop_report(&mut self) -> (r: Option<MouseReport>)
        requires
            old(self).wf(),
        ensures
            final(self).wf(),
            final(self).capacity == old(self).capacity,
            match r {
                Some(rep) => old(self).items@.len() > 0 && rep == old(self).items@[0]
                    && final(self).items@ == old(self).items@.subrange(
                    1,
                    old(self).items@.len() as int,
                ),
                None => old(self).items@.len() == 0 && final(self).items@ == old(self).items@,
            },
    {
        if self.items.len() == 0 {
            None
        } else {
            let r: MouseReport = self.items.remove(0);
            Some(r)
        }
    }
}

} // verus!
