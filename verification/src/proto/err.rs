//! Result codes carried in `result` fields. `OK` is success, negative values are
//! protocol errors. Codes are never renumbered, only appended.
use vstd::prelude::*;

verus! {

pub const OK: i32 = 0;
/// Handshake major version mismatch.
pub const PROTO_MISMATCH: i32 = -1;
/// Monitor cap reached.
pub const MAX_MONITORS: i32 = -2;
/// Width, height or refresh outside the supported envelope.
pub const BAD_MODE: i32 = -3;
/// The bit depth is not one of the supported values.
pub const BAD_BIT_DEPTH: i32 = -4;
/// HDR requested but unsupported.
pub const HDR_UNSUPPORTED: i32 = -5;
/// No usable render adapter.
pub const NO_ADAPTER: i32 = -6;
/// The session already has a monitor.
pub const DUPLICATE_SESSION: i32 = -7;
/// The session is unknown.
pub const NO_SUCH_SESSION: i32 = -8;
/// Shared ring section or texture allocation failed.
pub const RING_ALLOC: i32 = -9;
/// The handle has not completed a handshake.
pub const NOT_HANDSHAKEN: i32 = -10;
/// The display identity is already bound to a live monitor, or reserved.
pub const IDENTITY_IN_USE: i32 = -11;
/// Invalid permanent-pool configuration.
pub const BAD_POOL: i32 = -12;
/// A mode update was not applied; sending it again may succeed.
pub const UPDATE_FAILED: i32 = -13;
/// A mode update would gate out the committed mode; resending cannot succeed.
pub const MODE_COMMITTED: i32 = -14;
/// Unspecified driver-internal failure.
pub const INTERNAL: i32 = -100;

/// The result codes in numbers, as they stand in replies.
pub proof fn law_result_code_values()
    ensures
        OK == 0 && PROTO_MISMATCH == -1 && MAX_MONITORS == -2 && BAD_MODE == -3,
        BAD_BIT_DEPTH == -4 && HDR_UNSUPPORTED == -5 && NO_ADAPTER == -6,
        DUPLICATE_SESSION == -7 && NO_SUCH_SESSION == -8 && RING_ALLOC == -9,
        NOT_HANDSHAKEN == -10 && IDENTITY_IN_USE == -11 && BAD_POOL == -12,
        UPDATE_FAILED == -13 && MODE_COMMITTED == -14 && INTERNAL == -100,
{
}

} // verus!
