//! Bits of `CreateMonitorRequest::flags`.
use vstd::prelude::*;

verus! {

/// Informational: the host doubled the refresh rate for frame generation.
pub const REFRESH_DOUBLED: u32 = 1;
/// Ignore `display_id` and derive a throwaway identity.
pub const EPHEMERAL_IDENTITY: u32 = 2;
/// Frames travel over a D3D12 fence.
pub const D3D12_FENCE_TRANSPORT: u32 = 4;
/// Refuse to fall back from the fence transport.
pub const FENCE_TRANSPORT_REQUIRED: u32 = 8;

} // verus!
