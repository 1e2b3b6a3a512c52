//! Memory sizes in bytes, KiB, MiB or GiB.
use vstd::prelude::*;

verus! {

/// A memory size with a binary unit (1 KB = 1024 bytes).
#[derive(Clone, Copy, Debug)]
pub enum Size {
    /// Size in bytes.
    B(usize),
    /// Size in kilobytes (1 KB = 1024 bytes).
    KB(usize),
    /// Size in megabytes (1 MB = 1024 KB).
    MB(usize),
    /// Size in gigabytes (1 GB = 1024 MB).
    GB(usize),
}

impl Size {
    /// The number of bytes that this size stands for, as a mathematical integer.
    pub open spec fn spec_bytes(self) -> int {
        match self {
            Size::B(n) => n as int,
            Size::KB(n) => n * 1024,
            Size::MB(n) => n * 1048576,
            Size::GB(n) => n * 1073741824,
        }
    }

    /// Whether the byte count fits in a machine word.
    pub open spec fn fits(self) -> bool {
        self.spec_bytes() <= usize::MAX
    }

    /// Converts this size to bytes, or `None` where the count exceeds a machine word.
    pub fn checked_bytes(&self) -> (r: Option<usize>)
        ensures
            r == (if self.fits() { Some(self.spec_bytes() as usize) } else { None }),
    {
        match self {
            Size::B(n) => Some(*n),
            Size::KB(n) => n.checked_mul(1024),
            Size::MB(n) => n.checked_mul(1048576),
            Size::GB(n) => n.checked_mul(1073741824),
        }
    }

    /// Converts this size to bytes.
    pub fn bytes(&self) -> (r: usize)
        requires
            self.fits(),
        ensures
            r == self.spec_bytes(),
    {
        match self {
            Size::B(n) => *n,
            Size::KB(n) => *n * 1024,
            Size::MB(n) => *n * 1048576,
            Size::GB(n) => *n * 1073741824,
        }
    }

    /// The count without its unit.
    pub fn count(&self) -> (r: usize)
        ensures
            r == match *self {
                Size::B(n) => n,
                Size::KB(n) => n,
                Size::MB(n) => n,
                Size::GB(n) => n,
            },
    {
        match self {
            Size::B(n) => *n,
            Size::KB(n) => *n,
            Size::MB(n) => *n,
            Size::GB(n) => *n,
        }
    }

    /// The unit's name as it is printed behind the count.
    pub fn unit(&self) -> (r: &'static str)
        ensures
            r@ == match *self {
                Size::B(_) => "B"@,
                Size::KB(_) => "KB"@,
                Size::MB(_) => "MB"@,
                Size::GB(_) => "GB"@,
            },
    {
        match self {
            Size::B(_) => "B",
            Size::KB(_) => "KB",
            Size::MB(_) => "MB",
            Size::GB(_) => "GB",
        }
    }
}

} // verus!
