//! I2C register-transaction sequencer over a mock bus.
//!
//! Each call is one complete bus transaction against a device's register
//! file: a write sends the big-endian register address followed by the
//! payload bytes; a read addresses the register and then issues a
//! repeated-start read of its contents. Transactions are atomic — the caller
//! serializes them by holding the bus's resource-cell lock for the full call
//! — and a non-acknowledge is reported to the caller as a transaction
//! failure that leaves the register file untouched and the bus idle, so
//! later transactions are not corrupted. There is no automatic retry.
//!
//! The mock models a device as a register file keyed by device address and
//! register address, with a test hook that forces the next transaction to
//! be non-acknowledged.

use std::collections::HashMap;
use vstd::prelude::*;

verus! {

broadcast use vstd::std_specs::hash::group_hash_axioms;

/// A transaction failure: the device did not acknowledge, or the bus
/// reported an error; surfaced to the caller, who decides about retrying.
#[derive(Clone, Copy, PartialEq, Eq, Structural, Debug)]
pub enum BusError {
    Nack,
}

/// The register file key of one device register: 7-bit device address and
/// 16-bit register address packed into one word.
pub open spec fn reg_key(addr: u8, reg: u16) -> u32 {
    ((addr as u32) * 0x1_0000 + (reg as u32)) as u32
}

/// Distinct (device, register) pairs have distinct keys.
pub proof fn lemma_reg_key_injective(a1: u8, r1: u16, a2: u8, r2: u16)
    requires
        reg_key(a1, r1) == reg_key(a2, r2),
    ensures
        a1 == a2 && r1 == r2,
{
    assert(a1 == a2 && r1 == r2) by (nonlinear_arith)
        requires
            a1 as u32 * 0x1_0000 + r1 as u32 == a2 as u32 * 0x1_0000 + r2 as u32,
            r1 < 0x1_0000,
            r2 < 0x1_0000,
    ;
}

/// The big-endian wire encoding of a 16-bit register address.
pub open spec fn be16(reg: u16) -> Seq<u8> {
    seq![(reg >> 8) as u8, (reg & 0xff) as u8]
}

/// A write transaction's wire frame: the register address, big-endian, then
/// the payload bytes.
pub fn encode_write_frame(reg: u16, payload: &Vec<u8>) -> (frame: Vec<u8>)
    ensures
        frame@ == be16(reg) + payload@,
{
    let mut frame: Vec<u8> = Vec::new();
    frame.push((reg >> 8) as u8);
    frame.push((reg & 0xff) as u8);
    let n: usize = payload.len();
    let mut i: usize = 0;
    while i < n
        invariant
            i <= n,
            n == payload@.len(),
            frame@ == be16(reg) + payload@.take(i as int),
        decreases n - i,
    {
        frame.push(payload[i]);
        proof {
            assert(frame@ =~= be16(reg) + payload@.take(i + 1));
        }
        i = i + 1;
    }
    proof {
        assert(payload@.take(n as int) =~= payload@);
    }
    frame
}

/// Reassemble a 16-bit value from its big-endian wire bytes.
pub fn decode_be16(hi: u8, lo: u8) -> (r: u16)
    ensures
        r == ((hi as u16) << 8) | (lo as u16),
{
    ((hi as u16) << 8) | (lo as u16)
}

/// Encoding then decoding a register address is the identity.
pub proof fn lemma_be16_round_trip(reg: u16)
    ensures
        (((reg >> 8) as u8 as u16) << 8) | ((reg & 0xff) as u8 as u16) == reg,
{
    assert((((reg >> 8) as u8 as u16) << 8) | ((reg & 0xff) as u8 as u16) == reg) by (bit_vector);
}

/// A mock bus: the device registers seen so far, and a test hook that
/// forces the next transaction to fail with a non-acknowledge.
pub struct MockBus {
    pub regs: HashMap<u32, Vec<u8>>,
    pub nack_next: bool,
}

impl MockBus {
    /// What the register file holds for one device register.
    pub open spec fn stored(self, addr: u8, reg: u16) -> Option<Seq<u8>> {
        if self.regs@.contains_key(reg_key(addr, reg)) {
            Some(self.regs@[reg_key(addr, reg)]@)
        } else {
            None
        }
    }

    /// What a read transaction returns on this bus state.
    pub open spec fn read_result(self, addr: u8, reg: u16) -> Result<Seq<u8>, BusError> {
        if self.nack_next {
            Err(BusError::Nack)
        } else {
            match self.stored(addr, reg) {
                Some(d) => Ok(d),
                None => Err(BusError::Nack),
            }
        }
    }

    /// An idle bus with an empty register file.
    pub fn new() -> (b: MockBus)
        ensures
            b.regs@.dom() == Set::<u32>::empty(),
            !b.nack_next,
    {
        let b = MockBus { regs: HashMap::new(), nack_next: false };
        proof {
            assert(b.regs@.dom() =~= Set::<u32>::empty());
        }
        b
    }

    /// Test hook: the next transaction is not acknowledged.
    pub fn force_nack(&mut self)
        ensures
            final(self).regs@ == old(self).regs@,
            final(self).nack_next,
    {
        self.nack_next = true;
    }

    /// One complete write transaction: register address then payload, in
    /// one atomic bus operation. On success the register holds exactly the
    /// payload and every other register is untouched. A non-acknowledge is
    /// reported as `Err` and alters nothing: the last-good register file
    /// survives and the bus is left idle for the next transaction.
    pub fn write(&mut self, addr: u8, reg: u16, data: &Vec<u8>) -> (r: Result<(), BusError>)
        ensures
            !final(self).nack_next,
            r is Ok <==> !old(self).nack_next,
            r is Ok ==> final(self).stored(addr, reg) == Some(data@) && (forall|a2: u8, r2: u16|
                !(a2 == addr && r2 == reg) ==> final(self).stored(a2, r2) == old(self).stored(
                    a2,
                    r2,
                )),
            r is Err ==> final(self).regs@ == old(self).regs@ && r == Err::<(), BusError>(
                BusError::Nack,
            ),
    {
        if self.nack_next {
            self.nack_next = false;
            return Err(BusError::Nack);
        }
        let key: u32 = (addr as u32) * 0x1_0000 + (reg as u32);
        let copied: Vec<u8> = copy_bytes(data);
        self.regs.insert(key, copied);
        proof {
            assert forall|a2: u8, r2: u16|
                !(a2 == addr && r2 == reg) implies self.stored(a2, r2) == old(self).stored(
                a2,
                r2,
            ) by {
                if reg_key(a2, r2) == reg_key(addr, reg) {
                    lemma_reg_key_injective(a2, r2, addr, reg);
                }
            }
        }
        Ok(())
    }

    /// One complete read transaction: address the register, then a
    /// repeated-start read of its contents. Never alters the register
    /// file; a non-acknowledge (forced, or an unknown register) is reported
    /// as `Err` and the bus is left idle.
    pub fn read(&mut self, addr: u8, reg: u16) -> (r: Result<Vec<u8>, BusError>)
        ensures
            final(self).regs@ == old(self).regs@,
            !final(self).nack_next,
            match r {
                Ok(v) => old(self).read_result(addr, reg) == Ok::<Seq<u8>, BusError>(v@),
                Err(e) => old(self).read_result(addr, reg) == Err::<Seq<u8>, BusError>(e),
            },
    {
        if self.nack_next {
            self.nack_next = false;
            return Err(BusError::Nack);
        }
        let key: u32 = (addr as u32) * 0x1_0000 + (reg as u32);
        match self.regs.get(&key) {
            Some(v) => {
                let copied: Vec<u8> = copy_bytes(v);
                Ok(copied)
            },
            None => Err(BusError::Nack),
        }
    }
}

/// A byte-for-byte copy, as the bus shifts a payload out of the caller's
/// buffer.
pub fn copy_bytes(src: &Vec<u8>) -> (r: Vec<u8>)
    ensures
        r@ == src@,
{
    let mut r: Vec<u8> = Vec::new();
    let n: usize = src.len();
    let mut i: usize = 0;
    while i < n
        invariant
            i <= n,
            n == src@.len(),
            r@ == src@.take(i as int),
        decreases n - i,
    {
        r.push(src[i]);
        proof {
            assert(r@ =~= src@.take(i + 1));
        }
        i = i + 1;
    }
    proof {
        assert(src@.take(n as int) =~= src@);
    }
    r
}

/// Round trip through the register file: after a successful write of
/// `data` to a device register, a read of the same register returns
/// exactly `data`.
pub proof fn lemma_write_then_read_returns_written(b: MockBus, addr: u8, reg: u16, data: Seq<u8>)
    requires
        b.stored(addr, reg) == Some(data),
        !b.nack_next,
    ensures
        b.read_result(addr, reg) == Ok::<Seq<u8>, BusError>(data),
{
}

} // verus!
