//! The flattened device tree handed over by the boot loader.

use vstd::prelude::*;

verus! {

/// Magic number that opens every device tree blob.
pub const FDT_MAGIC: u32 = 0xD00D_FEED;

/// Where the boot loader put the initial ramdisk.
#[derive(Clone, Copy, Debug, PartialEq, Eq)]
pub struct Ramdisk {
    pub start: usize,
    pub end: usize,
}

/// Big-endian u32 stored at `o`.
pub open spec fn be_u32(b: Seq<u8>, o: int) -> int {
    b[o] * 0x100_0000 + b[o + 1] * 0x1_0000 + b[o + 2] * 0x100 + b[o + 3]
}

fn read_u32_be(b: &[u8], o: usize) -> (r: u32)
    requires
        o + 4 <= b.len(),
    ensures
        r == be_u32(b@, o as int),
{
    b[o] as u32 * 0x100_0000 + b[o + 1] as u32 * 0x1_0000 + b[o + 2] as u32 * 0x100 + b[o + 3] as u32
}

/// Size of the device tree blob whose first eight header bytes are `header`:
/// the big-endian total size that follows the magic number, or `None` when the
/// magic number is wrong.
pub fn dtb_total_size(header: &[u8]) -> (r: Option<usize>)
    requires
        header@.len() >= 8,
    ensures
        be_u32(header@, 0) != FDT_MAGIC ==> r is None,
        be_u32(header@, 0) == FDT_MAGIC ==> r == Some(be_u32(header@, 4) as usize),
{
    if read_u32_be(header, 0) != FDT_MAGIC {
        return None;
    }
    Some(read_u32_be(header, 4) as usize)
}

} // verus!
