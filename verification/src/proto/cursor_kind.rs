//! `CursorHeader::kind` values.
use vstd::prelude::*;

verus! {

/// 32 bits per pixel, premultiplied alpha.
pub const ALPHA: u32 = 1;
/// 32 bits per pixel, no alpha.
pub const COLOR: u32 = 2;
/// Monochrome AND/XOR mask.
pub const MASKED: u32 = 3;

} // verus!
