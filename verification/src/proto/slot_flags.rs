//! Bits of `SlotMetadata::flags`.
use vstd::prelude::*;

verus! {

/// The HDR metadata block of this slot is valid.
pub const HDR_METADATA_VALID: u32 = 1;
/// The dirty-rectangle summary of this slot is valid.
pub const DIRTY_RECTS_VALID: u32 = 2;

} // verus!
