//! The initial ramdisk as a block device: a window of memory that reads and
//! writes must stay inside.

use vstd::prelude::*;

verus! {

/// The ramdisk: `len` bytes starting at address `ptr`.
#[derive(Clone, Copy)]
pub struct Ramdisk {
    pub ptr: usize,
    pub len: usize,
}

/// Why a ramdisk access was refused.
#[derive(Debug, Clone, Copy, PartialEq, Eq)]
pub enum RamdiskError {
    OutOfBounds,
}

impl RamdiskError {
    /// The human-readable message of the error.
    pub fn message(&self) -> (m: &'static str)
        ensures
            m@ == "r/w out of bounds"@,
    {
        match self {
            RamdiskError::OutOfBounds => "r/w out of bounds",
        }
    }
}

impl Ramdisk {
    /// Checks an access of `count` bytes at byte `start_byte`; on success gives
    /// the offset of the first byte.
    pub fn check_access(&self, start_byte: u64, count: usize) -> (r: Result<usize, RamdiskError>)
        requires
            start_byte + count <= usize::MAX,
        ensures
            start_byte + count > self.len ==> r == Err::<usize, RamdiskError>(
                RamdiskError::OutOfBounds,
            ),
            start_byte + count <= self.len ==> r == Ok::<usize, RamdiskError>(start_byte as usize),
    {
        let start = start_byte as usize;
        let end = start + count;
        if end > self.len {
            return Err(RamdiskError::OutOfBounds);
        }
        Ok(start)
    }
}

} // verus!
