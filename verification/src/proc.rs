use vstd::prelude::*;
use crate::config::{PAGE_SIZE_BITS, PRESENT_BITMASK, SWAP_BITMASK};

verus! {

// ---------------------------------------------------------------------------
// Pagemap oracle
//
// The kernel's per-process pagemap export holds one little-endian 64-bit
// entry per virtual page.  Reading the file happens outside the crate; the
// entry's decoding into a physical address lives here.
// ---------------------------------------------------------------------------

/// Why a pagemap entry cannot be turned into a physical address.
#[derive(Debug, Clone, Copy, PartialEq, Eq, Structural)]
pub enum PagemapError {
    /// The present bit of the entry is clear.
    PageNotPresent,
    /// The swap bit of the entry is set: the page was swapped out although
    /// every engine page must be locked resident.
    PageSwapped,
}

/// Mask of the page-frame-number bits of a pagemap entry.
pub const PFN_MASK: u64 = 0x007F_FFFF_FFFF_FFFF;

/// The physical address a pagemap entry maps `virt_addr` to: the entry's
/// frame number shifted to an address, plus the offset within the page.
pub open spec fn phys_of_entry(entry: u64, virt_addr: u64) -> u64 {
    ((entry & PFN_MASK) << PAGE_SIZE_BITS) | (virt_addr & 0xFFF)
}

/// Turns the eight bytes of one pagemap record into its entry value.
pub fn pagemap_entry_of_bytes(buf: &[u8]) -> (entry: u64)
    requires
        buf@.len() == 8,
    ensures
        entry == vstd::bytes::spec_u64_from_le_bytes(buf@),
{
    vstd::bytes::u64_from_le_bytes(buf)
}

/// Decodes one pagemap entry for the virtual address it was read for.  An
/// entry without the present bit, or with the swap bit, yields the error the
/// engine treats as fatal.
pub fn pagemap_entry_to_phys(entry: u64, virt_addr: u64) -> (r: Result<u64, PagemapError>)
    ensures
        r == (if entry & PRESENT_BITMASK == 0 {
            Err::<u64, PagemapError>(PagemapError::PageNotPresent)
        } else if entry & SWAP_BITMASK != 0 {
            Err::<u64, PagemapError>(PagemapError::PageSwapped)
        } else {
            Ok::<u64, PagemapError>(phys_of_entry(entry, virt_addr))
        }),
{
    if entry & PRESENT_BITMASK == 0 {
        return Err(PagemapError::PageNotPresent);
    }
    if entry & SWAP_BITMASK != 0 {
        return Err(PagemapError::PageSwapped);
    }
    Ok(((entry & PFN_MASK) << PAGE_SIZE_BITS) | (virt_addr & 0xFFF))
}

} // verus!
