use vstd::prelude::*;
use std::collections::HashMap;

verus! {

/// Virtual alias of each held page frame, keyed by frame address.  The
/// mapping objects that keep the pages alive stay outside the crate; the
/// logic sees each held frame's virtual base address.
pub type Frame2Map = HashMap<u64, u64>;

/// Base-two logarithm of the page size.
pub const PAGE_SIZE_BITS: u64 = 12;

/// Size of one page in bytes.
pub const PAGE_SIZE: u64 = 4096;

/// Mask selecting the offset of an address within its page.
pub const PAGE_OFFSET_MASK: u64 = 0xFFF;

/// Mask selecting the page-aligned part of an address.
pub const PAGE_ALIGN_MASK: u64 = 0xFFFF_FFFF_FFFF_F000;

/// Present bit of an entry in the kernel's pagemap export.
pub const PRESENT_BITMASK: u64 = 0x8000_0000_0000_0000;

/// Swap bit of an entry in the kernel's pagemap export.
pub const SWAP_BITMASK: u64 = 0x4000_0000_0000_0000;

/// Number of page frames that make up one DRAM row.
pub const PAGES_PER_ROW: u64 = 2;

/// Size of one DRAM row in bytes.
pub const ROW_SIZE: u64 = 8192;

/// Mask selecting the row-aligned part of a physical address.
pub const ROW_ALIGN_MASK: u64 = 0xFFFF_FFFF_FFFF_E000;

/// Microarchitecture families the hammer loops were tuned on.
#[derive(Debug, PartialEq, Eq)]
pub enum UARCH {
    SandyBridge,
    IvyBridge,
    Haswell,
    /// Includes Skylake, Kaby Lake, Coffee Lake, Whiskey Lake, and Comet Lake.
    Skylake,
    Alderlake,
}

} // verus!
