//! Control codes of the device.
use vstd::prelude::*;

verus! {

/// The control code of function number `function`: device type 0x22 in the high
/// half, any access, buffered transfer.
pub open spec fn ctl_code_spec(function: u32) -> u32 {
    0x0022_0000u32 | (function << 2)
}

/// Windows `CTL_CODE` encoding.
pub fn ctl_code(function: u32) -> (r: u32)
    ensures
        r == ctl_code_spec(function),
{
    0x0022_0000u32 | (function << 2)
}

pub const FN_HANDSHAKE: u32 = 0x800;
pub const FN_CREATE_MONITOR: u32 = 0x801;
pub const FN_DESTROY_MONITOR: u32 = 0x802;
pub const FN_PING: u32 = 0x803;
pub const FN_GET_STATUS: u32 = 0x804;
pub const FN_SET_RENDER_ADAPTER: u32 = 0x805;
pub const FN_QUERY_LEASE: u32 = 0x806;
pub const FN_SET_PERMANENT_POOL: u32 = 0x807;
pub const FN_QUERY_PERMANENT_POOL: u32 = 0x808;
pub const FN_UPDATE_MODES: u32 = 0x809;

/// In: `HandshakeRequest`, out: `HandshakeReply`.
pub const IOCTL_HANDSHAKE: u32 = 0x0022_2000;
/// In: `CreateMonitorRequest`, out: `CreateMonitorReply`.
pub const IOCTL_CREATE_MONITOR: u32 = 0x0022_2004;
/// In: `DestroyMonitorRequest`, out: an `i32` result.
pub const IOCTL_DESTROY_MONITOR: u32 = 0x0022_2008;
/// In: `PingRequest`, out: an `i32` result.
pub const IOCTL_PING: u32 = 0x0022_200C;
/// In: nothing, out: `GetStatusReply`.
pub const IOCTL_GET_STATUS: u32 = 0x0022_2010;
/// In: `SetRenderAdapterRequest`, out: an `i32` result.
pub const IOCTL_SET_RENDER_ADAPTER: u32 = 0x0022_2014;
/// In: `QueryLeaseRequest`, out: `QueryLeaseReply`.
pub const IOCTL_QUERY_LEASE: u32 = 0x0022_2018;
/// In: `PermanentPoolConfig`, out: an `i32` result.
pub const IOCTL_SET_PERMANENT_POOL: u32 = 0x0022_201C;
/// In: nothing, out: `QueryPermanentPoolReply`.
pub const IOCTL_QUERY_PERMANENT_POOL: u32 = 0x0022_2020;
/// In: `UpdateModesRequest`, out: `UpdateModesReply`.
pub const IOCTL_UPDATE_MODES: u32 = 0x0022_2024;

/// Every control code is the encoding of its function number.
pub proof fn law_control_codes()
    ensures
        ctl_code_spec(FN_HANDSHAKE) == IOCTL_HANDSHAKE,
        ctl_code_spec(FN_CREATE_MONITOR) == IOCTL_CREATE_MONITOR,
        ctl_code_spec(FN_DESTROY_MONITOR) == IOCTL_DESTROY_MONITOR,
        ctl_code_spec(FN_PING) == IOCTL_PING,
        ctl_code_spec(FN_GET_STATUS) == IOCTL_GET_STATUS,
        ctl_code_spec(FN_SET_RENDER_ADAPTER) == IOCTL_SET_RENDER_ADAPTER,
        ctl_code_spec(FN_QUERY_LEASE) == IOCTL_QUERY_LEASE,
        ctl_code_spec(FN_SET_PERMANENT_POOL) == IOCTL_SET_PERMANENT_POOL,
        ctl_code_spec(FN_QUERY_PERMANENT_POOL) == IOCTL_QUERY_PERMANENT_POOL,
        ctl_code_spec(FN_UPDATE_MODES) == IOCTL_UPDATE_MODES,
{
    assert forall|n: u32| 0x800 <= n <= 0x809 implies #[trigger] ctl_code_spec(n) == 0x0022_0000
        + 4 * n by {
        assert(0x800u32 <= n && n <= 0x809u32 ==> (0x0022_0000u32 | (n << 2)) == 0x0022_0000u32
            + 4u32 * n) by (bit_vector);
    }
}

/// Distinct function numbers have distinct control codes.
pub proof fn law_control_codes_distinct(a: u32, b: u32)
    requires
        a < 0x8000,
        b < 0x8000,
        ctl_code_spec(a) == ctl_code_spec(b),
    ensures
        a == b,
{
    assert(a < 0x8000u32 && b < 0x8000u32 && (0x0022_0000u32 | (a << 2)) == (0x0022_0000u32 | (b
        << 2)) ==> a == b) by (bit_vector);
}

/// A control code is its function number times four, above the device type.
pub proof fn law_control_code_value(function: u32)
    requires
        function < 0x4000,
    ensures
        ctl_code_spec(function) == 0x22_0000 + 4 * function,
{
    assert(function < 0x4000u32 ==> (0x0022_0000u32 | (function << 2)) == 0x0022_0000u32 + 4u32
        * function) by (bit_vector);
}

} // verus!
