//! `RingHeader::state` values. 0 is unused, so that an untouched mapping shows.
use vstd::prelude::*;

verus! {

/// The driver is publishing frames.
pub const ACTIVE: u32 = 1;
/// The driver is rebuilding device and textures; the generation will move.
pub const REBUILDING: u32 = 2;
/// The monitor is gone.
pub const DEAD: u32 = 3;

} // verus!
