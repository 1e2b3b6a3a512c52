//! Hammerers: what disturbs memory between the filling and the check.
use vstd::prelude::*;
use crate::pattern::FlipDirection;
use crate::phys_addr::PhysAddr;

verus! {

/// A technique that hammers memory.
pub trait Hammering {
    /// The error type returned by hammering operations.
    type Error;

    /// Performs the hammering operation.
    fn hammer(&self) -> Result<(), Self::Error>;
}

/// A bit position within a byte (0-7).
#[derive(Clone, Copy, Debug)]
pub struct Bit(pub usize);

/// Hammerer that changes one bit of physical memory through the memory device.
#[derive(Debug)]
pub struct DevMem {
    /// Physical address of the byte.
    pub phys_addr: PhysAddr,
    /// Bit position to change.
    pub bit: Bit,
    /// Direction of the change.
    pub direction: FlipDirection,
}

impl DevMem {
    /// Creates the hammerer for a byte, a bit in it and a direction.
    pub fn new(phys_addr: PhysAddr, bit: Bit, direction: FlipDirection) -> (r: Self)
        requires
            bit.0 < 8,
        ensures
            r.phys_addr == phys_addr,
            r.bit == bit,
            r.direction == direction,
    {
        DevMem { phys_addr, bit, direction }
    }

    /// Whether the direction names one change of one bit.
    pub open spec fn direction_ok(self) -> bool {
        self.direction is ZeroToOne || self.direction is OneToZero || self.direction is Any
    }

    /// The byte that the hammerer makes of `value`.
    pub open spec fn spec_changed(self, value: u8) -> u8 {
        let mask = 1u8 << (self.bit.0 as u8);
        if self.direction is ZeroToOne {
            value | mask
        } else if self.direction is OneToZero {
            value & !mask
        } else {
            value ^ mask
        }
    }

    /// The byte that the hammerer makes of `value`: the bit set, cleared or
    /// inverted, and the other bits as they are. The byte is to be written
    /// back where it differs from `value`.
    pub fn changed(&self, value: u8) -> (r: u8)
        requires
            self.bit.0 < 8,
            self.direction_ok(),
        ensures
            r == self.spec_changed(value),
    {
        let mask: u8 = 1u8 << (self.bit.0 as u8);
        match &self.direction {
            FlipDirection::ZeroToOne => value | mask,
            FlipDirection::OneToZero => value & !mask,
            _ => value ^ mask,
        }
    }
}

/// The address of a byte to invert.
#[derive(Clone, Copy, Debug)]
pub struct FlipAddr(pub usize);

/// Hammerer that inverts one byte.
#[derive(Clone, Copy, Debug)]
pub struct Dummy {
    /// Address of the byte.
    pub flip_addr: FlipAddr,
}

impl Dummy {
    /// Creates the hammerer for the byte at the given address.
    pub fn new(flip_addr: FlipAddr) -> (r: Self)
        ensures
            r.flip_addr == flip_addr,
    {
        Dummy { flip_addr }
    }

    /// The byte that the hammerer makes of `value`: every bit inverted.
    pub fn changed(value: u8) -> (r: u8)
        ensures
            r == !value,
    {
        !value
    }
}

/// Number of hammering attempts to perform.
#[derive(Clone, Copy, Debug)]
pub struct Attempts(pub u32);

/// Block size as a power of two.
#[derive(Clone, Copy, Debug)]
pub struct BlockShift(pub usize);

} // verus!
