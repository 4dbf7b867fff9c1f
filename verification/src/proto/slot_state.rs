//! `SlotMetadata::state` values.
use vstd::prelude::*;

verus! {

/// Free for the driver to write.
pub const FREE: u32 = 0;
/// The driver is copying into the slot texture.
pub const WRITING: u32 = 1;
/// Frame complete; available to the host.
pub const PUBLISHED: u32 = 2;
/// The host holds the slot.
pub const READING: u32 = 3;

} // verus!
