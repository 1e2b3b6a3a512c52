//! Physical addresses.
use vstd::prelude::*;

verus! {

/// Physical memory address: a newtype over a machine word.
#[derive(Clone, Copy, Debug, PartialEq, Eq, Structural)]
pub struct PhysAddr(pub usize);

impl View for PhysAddr {
    type V = int;

    open spec fn view(&self) -> int {
        self.0 as int
    }
}

impl PhysAddr {
    /// Creates a new physical address.
    pub fn new(addr: usize) -> (r: Self)
        ensures
            r@ == addr,
    {
        PhysAddr(addr)
    }

    /// Returns the address as a machine word.
    pub fn as_usize(&self) -> (r: usize)
        ensures
            r == self@,
    {
        self.0
    }

    /// The address `rhs` bytes above this one.
    pub fn add(self, rhs: usize) -> (r: Self)
        requires
            self@ + rhs <= usize::MAX,
        ensures
            r@ == self@ + rhs,
    {
        PhysAddr(self.0 + rhs)
    }

    /// The address `rhs` bytes below this one.
    pub fn sub(self, rhs: usize) -> (r: Self)
        requires
            self@ >= rhs,
        ensures
            r@ == self@ - rhs,
    {
        PhysAddr(self.0 - rhs)
    }

    /// The sum of two addresses, or `None` where it leaves the machine word.
    pub fn checked_add(self, rhs: usize) -> (r: Option<Self>)
        ensures
            r == (if self@ + rhs <= usize::MAX { Some(PhysAddr((self@ + rhs) as usize)) } else { None::<PhysAddr> }),
    {
        match self.0.checked_add(rhs) {
            Some(v) => Some(PhysAddr(v)),
            None => None,
        }
    }

    /// The distance from `rhs` up to this address, or `None` where `rhs` lies above it.
    pub fn checked_sub(self, rhs: PhysAddr) -> (r: Option<Self>)
        ensures
            r == (if self@ >= rhs@ { Some(PhysAddr((self@ - rhs@) as usize)) } else { None::<PhysAddr> }),
    {
        if self.0 >= rhs.0 {
            Some(PhysAddr(self.0 - rhs.0))
        } else {
            None
        }
    }
}

impl Default for PhysAddr {
    fn default() -> (r: Self)
        ensures
            r@ == 0,
    {
        PhysAddr(0)
    }
}

} // verus!
