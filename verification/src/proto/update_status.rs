//! Bits of the status word of an `UpdateModesReply`.
use vstd::prelude::*;

verus! {

/// The list is not in force yet.
pub const PENDING: u32 = 1;
/// Some requested modes do not exist on the monitor.
pub const PARTIAL: u32 = 2;
/// Refused for good: the list would gate out the committed mode.
pub const BLOCKED: u32 = 4;

} // verus!
