//! Capability bits reported by the driver in the handshake.
use vstd::prelude::*;

verus! {

/// HDR10 output.
pub const HDR10: u32 = 1;
/// 12-bit HDR pipeline.
pub const HDR12_BIT: u32 = 2;
/// 10-bit SDR.
pub const SDR10_BIT: u32 = 4;
/// Slot metadata carries meaningful dirty-rectangle summaries.
pub const DIRTY_RECTS: u32 = 8;
/// Frame-generation-aware doubled refresh modes.
pub const REFRESH_DOUBLING: u32 = 16;
/// Hardware cursor plane: the driver fills the cursor section instead of
/// compositing the cursor into frames.
pub const HW_CURSOR: u32 = 32;
/// Gamma ramps.
pub const GAMMA_RAMP: u32 = 64;
/// More than one mode per monitor.
pub const MULTI_MODE: u32 = 128;
/// Permanent display pool.
pub const PERMANENT_POOL: u32 = 256;
/// The target-mode list of a live monitor can be replaced.
pub const DYNAMIC_MODES: u32 = 512;
/// Frames can travel over a D3D12 fence instead of a keyed mutex.
pub const D3D12_FENCE_TRANSPORT: u32 = 1024;
/// The driver refuses monitors that do not ask for the fence transport.
pub const FENCE_TRANSPORT_REQUIRED: u32 = 2048;

} // verus!
