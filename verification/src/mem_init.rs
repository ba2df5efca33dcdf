use vstd::prelude::*;
use crate::serialize::BitFlip;

verus! {

// ---------------------------------------------------------------------------
// Victim initialisation values
//
// Before hammering, each victim byte is set up so the declared flip has room
// to happen: the targeted bit starts at the value opposite its expected
// direction.  The volatile writes happen outside the crate; the byte values
// are computed here.
// ---------------------------------------------------------------------------

/// The byte a victim is initialised to so that `flip` can occur: the
/// targeted bit is forced to the flip's starting value, the other bits keep
/// their current content.
pub fn victim_init_byte(current: u8, flip: &BitFlip) -> (r: u8)
    requires
        flip.flip_index < 8,
    ensures
        r == (if flip.flip_direction {
            current & !(1u8 << flip.flip_index)
        } else {
            current | (1u8 << flip.flip_index)
        }),
{
    let mask: u8 = 1u8 << flip.flip_index;
    if flip.flip_direction {
        current & !mask
    } else {
        current | mask
    }
}

/// The byte after `flip` has happened: the targeted bit takes the flip's end
/// value, the other bits keep their current content.
pub fn apply_bitflip(current: u8, flip: &BitFlip) -> (r: u8)
    requires
        flip.flip_index < 8,
    ensures
        r == (if flip.flip_direction {
            current | (1u8 << flip.flip_index)
        } else {
            current & !(1u8 << flip.flip_index)
        }),
{
    let mask: u8 = 1u8 << flip.flip_index;
    if flip.flip_direction {
        current | mask
    } else {
        current & !mask
    }
}

} // verus!
