//! The interface between the streaming host and the driver.
//!
//! Everything that crosses the process boundary is made of fixed-width integers
//! in a fixed order. Raw values become enums only through checked conversions,
//! so a stale peer can never produce an invalid one.
use vstd::prelude::*;

pub mod caps;
pub mod create_flags;
pub mod cursor_kind;
pub mod err;
pub mod ioctl;
pub mod layout;
pub mod messages;
pub mod names;
pub mod ring_state;
pub mod sections;
pub mod slot_flags;
pub mod slot_state;
pub mod update_reply;
pub mod update_status;
pub mod wire;

pub use messages::{
    CreateMonitorReply, CreateMonitorRequest, DestroyMonitorRequest, GetStatusReply, HandshakeReply,
    HandshakeRequest, ModeSpec, MonitorStatus, PermanentPoolConfig, PingRequest, QueryLeaseReply,
    QueryLeaseRequest, QueryPermanentPoolReply, SetRenderAdapterRequest, UpdateModesReply,
    UpdateModesRequest,
};
pub use sections::{CursorHeader, Hdr10StaticMetadata, RectU32, RingHeader, SlotMetadata};
pub use update_reply::{NO_MODE_INDEX, NO_REJECTED_INDEX};

verus! {

/// Bumped on breaking changes. The host refuses to run on a mismatch.
pub const PROTO_VERSION_MAJOR: u16 = 0;

/// Bumped on additive, backward-compatible changes.
pub const PROTO_VERSION_MINOR: u16 = 8;

/// The minor version a host announces: the oldest driver it can work with.
pub const PROTO_VERSION_MINOR_REQUIRED: u16 = 3;

/// Device interface GUID of the control device,
/// {B3A7F2D4-6E1C-4A98-9D3B-5C0E8F714A26}.
pub const LUMINAL_VGD_INTERFACE_GUID: (u32, u16, u16, [u8; 8]) = (
    0xB3A7_F2D4,
    0x6E1C,
    0x4A98,
    [0x9D, 0x3B, 0x5C, 0x0E, 0x8F, 0x71, 0x4A, 0x26],
);

/// Size of a create request without the luminance tail. Requests of this size are
/// still accepted, with the tail read as zero.
pub const CREATE_MONITOR_REQUEST_SIZE_V3: usize = 168;

/// Size of the first mode-update request.
pub const UPDATE_MODES_REQUEST_SIZE_V5: usize = 80;

/// Default monitor cap.
pub const DEFAULT_MAX_MONITORS: u32 = 10;

/// Hard ceiling on monitors; sizes the status reply.
pub const ABI_MAX_MONITORS: u32 = 16;

/// Default watchdog timeout in seconds; 0 disables.
pub const DEFAULT_WATCHDOG_SECS: u32 = 3;

/// Default number of slots in a frame ring.
pub const DEFAULT_RING_SLOTS: u32 = 3;

/// Hard ceiling on ring slots.
pub const ABI_MAX_RING_SLOTS: u32 = 8;

/// Maximum number of modes one monitor may advertise.
pub const MAX_MODES_PER_MONITOR: u32 = 4;

/// Maximum number of displays in the permanent pool.
pub const MAX_PERMANENT_DISPLAYS: u32 = 4;

/// Lease timeout floor when a request leaves the choice to the driver.
pub const DEFAULT_LEASE_TIMEOUT_MS: u32 = 10_000;

/// Shortest lease timeout a request can get.
pub const MIN_LEASE_TIMEOUT_MS: u32 = 3_000;

/// Longest lease timeout a request can get.
pub const MAX_LEASE_TIMEOUT_MS: u32 = 300_000;

/// Requested timeout: take the driver's default.
pub const LEASE_TIMEOUT_USE_DEFAULT: u32 = 0;

/// Requested timeout: never reap.
pub const LEASE_TIMEOUT_DISABLED: u32 = 0xFFFF_FFFF;

/// Keyed-mutex key the driver holds while writing a slot.
pub const KMTX_KEY_DRIVER: u64 = 0;

/// Keyed-mutex key the host acquires to read a published slot.
pub const KMTX_KEY_HOST: u64 = 1;

/// Bounded wait of every keyed-mutex acquire, in milliseconds.
pub const KMTX_ACQUIRE_TIMEOUT_MS: u32 = 100;

pub const RING_MAGIC: u32 = 0x4C56_4752;

/// Version of the ring-section layout.
pub const RING_HEADER_VERSION: u32 = 1;

/// The slot metadata array starts here, past the header.
pub const RING_SLOTS_OFFSET: usize = 128;

/// The driver refreshes its heartbeat at least this often.
pub const RING_HEARTBEAT_INTERVAL_MS: u32 = 500;

/// The host takes the driver for wedged when the heartbeat is older than this.
pub const RING_HEARTBEAT_STALE_MS: u32 = 2000;

/// Largest cursor shape, in pixels per side.
pub const CURSOR_MAX_DIM: u32 = 256;

pub const CURSOR_MAGIC: u32 = 0x4C56_4743;

pub const CURSOR_HEADER_VERSION: u32 = 1;

/// The shape buffer starts here, past the cursor header.
pub const CURSOR_SHAPE_OFFSET: usize = 64;

/// Supported combinations of bit depth and dynamic range.
#[derive(Clone, Copy, Debug, PartialEq, Eq, Structural)]
pub enum BitDepth {
    Sdr8,
    Sdr10,
    Hdr10,
    Hdr12,
}

impl BitDepth {
    /// The wire value.
    pub open spec fn raw(self) -> u32 {
        match self {
            BitDepth::Sdr8 => 8,
            BitDepth::Sdr10 => 10,
            BitDepth::Hdr10 => 110,
            BitDepth::Hdr12 => 112,
        }
    }

    /// The depth with this wire value, if there is one.
    pub open spec fn of_raw(raw: u32) -> Option<BitDepth> {
        if raw == 8 {
            Some(BitDepth::Sdr8)
        } else if raw == 10 {
            Some(BitDepth::Sdr10)
        } else if raw == 110 {
            Some(BitDepth::Hdr10)
        } else if raw == 112 {
            Some(BitDepth::Hdr12)
        } else {
            None
        }
    }

    /// Checked conversion from the wire value.
    pub fn from_raw(raw: u32) -> (r: Option<Self>)
        ensures
            r == BitDepth::of_raw(raw),
            r matches Some(d) ==> d.raw() == raw,
            r is None ==> forall|d: BitDepth| d.raw() != raw,
    {
        match raw {
            8 => Some(BitDepth::Sdr8),
            10 => Some(BitDepth::Sdr10),
            110 => Some(BitDepth::Hdr10),
            112 => Some(BitDepth::Hdr12),
            _ => None,
        }
    }

    pub fn as_raw(self) -> (r: u32)
        ensures
            r == self.raw(),
    {
        match self {
            BitDepth::Sdr8 => 8,
            BitDepth::Sdr10 => 10,
            BitDepth::Hdr10 => 110,
            BitDepth::Hdr12 => 112,
        }
    }

    pub fn is_hdr(self) -> (r: bool)
        ensures
            r == (self is Hdr10 || self is Hdr12),
    {
        matches!(self, BitDepth::Hdr10 | BitDepth::Hdr12)
    }
}

/// The wire value of a depth converts back to that depth.
pub proof fn law_bit_depth_round_trip(d: BitDepth)
    ensures
        BitDepth::of_raw(d.raw()) == Some(d),
{
}

/// Same major version, and a driver at least as new as what the host needs.
pub open spec fn compatible(
    host_major: u16,
    host_minor: u16,
    driver_major: u16,
    driver_minor: u16,
) -> bool {
    host_major == driver_major && driver_minor >= host_minor
}

/// The compatibility rule, defined once for both sides.
pub fn versions_compatible(
    host_major: u16,
    host_minor: u16,
    driver_major: u16,
    driver_minor: u16,
) -> (r: bool)
    ensures
        r == compatible(host_major, host_minor, driver_major, driver_minor),
{
    host_major == driver_major && driver_minor >= host_minor
}

/// A newer driver of the same major version keeps working with every host that an
/// older one worked with.
pub proof fn law_minor_bumps_keep_hosts(host_major: u16, host_minor: u16, major: u16, m1: u16, m2: u16)
    requires
        compatible(host_major, host_minor, major, m1),
        m1 <= m2,
    ensures
        compatible(host_major, host_minor, major, m2),
{
}

/// Total byte size of a ring section for `slots` slots.
pub fn ring_section_size(slots: u32) -> (r: usize)
    requires
        RING_SLOTS_OFFSET + slots * sections::SLOT_METADATA_SIZE <= usize::MAX,
    ensures
        r == RING_SLOTS_OFFSET + slots * sections::SLOT_METADATA_SIZE,
{
    RING_SLOTS_OFFSET + (slots as usize) * sections::SLOT_METADATA_SIZE
}

/// Total byte size of a cursor section: the header and the largest shape.
pub fn cursor_section_size() -> (r: usize)
    ensures
        r == CURSOR_SHAPE_OFFSET + CURSOR_MAX_DIM * CURSOR_MAX_DIM * 4,
{
    CURSOR_SHAPE_OFFSET + (CURSOR_MAX_DIM as usize) * (CURSOR_MAX_DIM as usize) * 4
}

/// The headers fit below what follows them, and the fixed sizes agree with the
/// layouts they belong to.
pub proof fn law_sections_fit()
    ensures
        sections::RING_HEADER_SIZE <= RING_SLOTS_OFFSET,
        sections::CURSOR_HEADER_SIZE <= CURSOR_SHAPE_OFFSET,
        messages::CREATE_MONITOR_REQUEST_SIZE == CREATE_MONITOR_REQUEST_SIZE_V3 + 8,
        messages::UPDATE_MODES_REQUEST_SIZE == UPDATE_MODES_REQUEST_SIZE_V5,
        messages::GET_STATUS_REPLY_SIZE == 32 + messages::MONITOR_STATUS_SIZE * ABI_MAX_MONITORS,
{
}

/// The numbers both sides are built on.
pub proof fn law_protocol_values()
    ensures
        PROTO_VERSION_MAJOR == 0,
        PROTO_VERSION_MINOR == 8,
        PROTO_VERSION_MINOR_REQUIRED == 3,
        DEFAULT_MAX_MONITORS == 10,
        ABI_MAX_MONITORS == 16,
        DEFAULT_WATCHDOG_SECS == 3,
        DEFAULT_RING_SLOTS == 3,
        ABI_MAX_RING_SLOTS == 8,
        MAX_MODES_PER_MONITOR == 4,
        MAX_PERMANENT_DISPLAYS == 4,
        DEFAULT_LEASE_TIMEOUT_MS == 10_000,
        MIN_LEASE_TIMEOUT_MS == 3_000,
        MAX_LEASE_TIMEOUT_MS == 300_000,
        LEASE_TIMEOUT_USE_DEFAULT == 0,
        LEASE_TIMEOUT_DISABLED == 0xFFFF_FFFF,
        KMTX_KEY_DRIVER == 0,
        KMTX_KEY_HOST == 1,
        KMTX_ACQUIRE_TIMEOUT_MS == 100,
        RING_MAGIC == 0x4C56_4752,
        RING_HEADER_VERSION == 1,
        RING_SLOTS_OFFSET == 128,
        RING_HEARTBEAT_INTERVAL_MS == 500,
        RING_HEARTBEAT_STALE_MS == 2_000,
        CURSOR_MAX_DIM == 256,
        CURSOR_MAGIC == 0x4C56_4743,
        CURSOR_HEADER_VERSION == 1,
        CURSOR_SHAPE_OFFSET == 64,
        CREATE_MONITOR_REQUEST_SIZE_V3 == 168,
        UPDATE_MODES_REQUEST_SIZE_V5 == 80,
{
}

/// The bits and states both sides are built on.
pub proof fn law_protocol_bits()
    ensures
        caps::HDR10 == 1,
        caps::HDR12_BIT == 2,
        caps::SDR10_BIT == 4,
        caps::DIRTY_RECTS == 8,
        caps::REFRESH_DOUBLING == 16,
        caps::HW_CURSOR == 32,
        caps::GAMMA_RAMP == 64,
        caps::MULTI_MODE == 128,
        caps::PERMANENT_POOL == 256,
        caps::DYNAMIC_MODES == 512,
        caps::D3D12_FENCE_TRANSPORT == 1024,
        caps::FENCE_TRANSPORT_REQUIRED == 2048,
        create_flags::REFRESH_DOUBLED == 1,
        create_flags::EPHEMERAL_IDENTITY == 2,
        create_flags::D3D12_FENCE_TRANSPORT == 4,
        create_flags::FENCE_TRANSPORT_REQUIRED == 8,
        cursor_kind::ALPHA == 1,
        cursor_kind::COLOR == 2,
        cursor_kind::MASKED == 3,
        ring_state::ACTIVE == 1,
        ring_state::REBUILDING == 2,
        ring_state::DEAD == 3,
        slot_flags::HDR_METADATA_VALID == 1,
        slot_flags::DIRTY_RECTS_VALID == 2,
        slot_state::FREE == 0,
        slot_state::WRITING == 1,
        slot_state::PUBLISHED == 2,
        slot_state::READING == 3,
        update_status::PENDING == 1,
        update_status::PARTIAL == 2,
        update_status::BLOCKED == 4,
{
}

/// Versions work together exactly when the major numbers agree and the driver is not
/// older than the host needs.
pub proof fn law_version_rule(host_major: u16, host_minor: u16, driver_major: u16, driver_minor: u16)
    ensures
        compatible(host_major, host_minor, driver_major, driver_minor) <==> host_major == driver_major
            && host_minor <= driver_minor,
{
}

/// The depths as they travel.
pub proof fn law_bit_depth_values(raw: u32)
    ensures
        BitDepth::Sdr8.raw() == 8,
        BitDepth::Sdr10.raw() == 10,
        BitDepth::Hdr10.raw() == 110,
        BitDepth::Hdr12.raw() == 112,
        BitDepth::of_raw(raw) is None <==> raw != 8 && raw != 10 && raw != 110 && raw != 112,
{
}

} // verus!
