//! The values that cross the host's C interface.
use vstd::prelude::*;

use crate::proto::caps;
use crate::proto::create_flags;
use crate::proto::cursor_kind;
use crate::proto::names::{nul_padded, slot_texture_name, slot_texture_units};
use crate::proto::update_status;
use crate::proto::{
    CreateMonitorReply, CreateMonitorRequest, CursorHeader, HandshakeReply, ModeSpec, RingHeader,
    UpdateModesReply, UpdateModesRequest, CURSOR_MAX_DIM, NO_MODE_INDEX, NO_REJECTED_INDEX,
};

verus! {

/// The operating system failed, as opposed to a negative `err::*` code of the driver.
pub const VGD_ERR_IO: i32 = -1000;

/// Capability bits of `VgdCaps::caps`.
pub const VGD_CAP_HDR10: u32 = 1;

pub const VGD_CAP_SDR10_BIT: u32 = 4;

pub const VGD_CAP_HW_CURSOR: u32 = 32;

pub const VGD_CAP_DYNAMIC_MODES: u32 = 512;

pub const VGD_CAP_D3D12_FENCE_TRANSPORT: u32 = 1024;

pub const VGD_CAP_FENCE_TRANSPORT_REQUIRED: u32 = 2048;

/// Bits of `VgdCreateRequest::flags`.
pub const VGD_CREATE_D3D12_FENCE_TRANSPORT: u32 = 4;

pub const VGD_CREATE_FENCE_TRANSPORT_REQUIRED: u32 = 8;

/// `VgdCursorShape::kind` values.
pub const VGD_CURSOR_KIND_ALPHA: u32 = 1;

pub const VGD_CURSOR_KIND_MASKED: u32 = 3;

/// The largest shape in bytes.
pub const VGD_CURSOR_SHAPE_BUFFER_SIZE: u32 = 256 * 256 * 4;

/// `VgdUpdateModesReply::first_rejected` when nothing was rejected.
pub const VGD_NO_REJECTED_INDEX: u32 = 0xFFFF_FFFF;

/// `VgdUpdateModesReply::blocking_mode` when nothing blocks the request.
pub const VGD_NO_MODE_INDEX: u32 = 0xFFFF_FFFF;

/// Bits of `VgdUpdateModesReply::flags`.
pub const VGD_UPDATE_PENDING: u32 = 1;

pub const VGD_UPDATE_PARTIAL: u32 = 2;

pub const VGD_UPDATE_BLOCKED: u32 = 4;

/// What the handshake told.
#[derive(Clone, Copy, Debug, PartialEq, Eq, Structural)]
pub struct VgdCaps {
    pub proto_major: u16,
    pub proto_minor: u16,
    pub driver_build: u32,
    pub caps: u32,
    pub max_monitors: u32,
    pub watchdog_secs: u32,
}

/// One display mode.
#[derive(Clone, Copy, Debug, PartialEq, Eq, Structural)]
pub struct VgdModeSpec {
    pub width: u32,
    pub height: u32,
    pub refresh_millihz: u32,
}

/// What a monitor is to be. Zero takes the driver's default where there is one.
#[derive(Clone, Copy, Debug, PartialEq, Eq)]
pub struct VgdCreateRequest {
    pub session_id: u64,
    pub display_id: u64,
    pub adapter_luid: u64,
    pub lease_timeout_ms: u32,
    pub bit_depth: u32,
    pub hdr: u32,
    pub flags: u32,
    pub mode_count: u32,
    /// The first is preferred.
    pub modes: [VgdModeSpec; 4],
    pub physical_width_mm: u32,
    pub physical_height_mm: u32,
    /// NUL-padded UTF-16.
    pub friendly_name: [u16; 32],
    pub max_nits: u32,
}

#[derive(Clone, Copy, Debug, PartialEq, Eq, Structural)]
pub struct VgdCreateReply {
    pub session_id: u64,
    pub display_id: u64,
    /// 0 or a negative `err::*` code.
    pub result: i32,
    pub ring_slots: u32,
    pub connector_index: u32,
}

/// The header of a ring at one moment.
#[derive(Clone, Copy, Debug, PartialEq, Eq, Structural)]
pub struct VgdRingStatus {
    pub generation: u32,
    /// One of `ring_state::*`, or 0 before the ring is set up.
    pub state: u32,
    /// The transport chosen for this generation.
    pub transport_flags: u32,
    pub reserved: u32,
    pub latest_sequence: u64,
    pub frames_published: u64,
    pub frames_dropped: u64,
    pub heartbeat_qpc: u64,
    pub qpc_frequency: u64,
}

/// A frame the host holds. Its slot is not written until it is released.
#[derive(Clone, Copy, Debug, PartialEq, Eq, Structural)]
pub struct VgdFrame {
    pub index: u32,
    /// Part of the texture's name.
    pub generation: u32,
    pub sequence: u64,
    pub present_qpc: u64,
    pub ready_fence_value: u64,
}

/// Which of its modes a live monitor is to offer.
#[derive(Clone, Copy, Debug, PartialEq, Eq)]
pub struct VgdUpdateModesRequest {
    pub session_id: u64,
    /// Reserved; 0.
    pub flags: u32,
    pub mode_count: u32,
    pub modes: [VgdModeSpec; 4],
}

#[derive(Clone, Copy, Debug, PartialEq, Eq, Structural)]
pub struct VgdUpdateModesReply {
    pub session_id: u64,
    /// 0 for accepted, or a negative `err::*` code.
    pub result: i32,
    /// Modes the monitor offers once the request is applied.
    pub mode_count: u32,
    pub accepted: u32,
    pub requested: u32,
    /// Bitmask of `VGD_UPDATE_*`.
    pub flags: u32,
    pub rejected: u32,
    /// Index of the first rejected mode in the request.
    pub first_rejected: u32,
    /// Index, among the modes the monitor was created with, of the mode that the
    /// display runs and that the request would have taken away.
    pub blocking_mode: u32,
}

/// Where the cursor is.
#[derive(Clone, Copy, Debug, PartialEq, Eq, Structural)]
pub struct VgdCursorState {
    pub x: i32,
    pub y: i32,
    /// 0 hidden, 1 visible.
    pub visible: u32,
    /// Moves with every new shape; 0 before the first.
    pub shape_generation: u32,
    pub position_qpc: u64,
}

/// What the cursor looks like; the pixels are handed over beside it.
#[derive(Clone, Copy, Debug, PartialEq, Eq, Structural)]
pub struct VgdCursorShape {
    pub kind: u32,
    pub width: u32,
    pub height: u32,
    pub hotspot_x: u32,
    pub hotspot_y: u32,
    pub generation: u32,
}

/// The same numbers as a mode of a request.
pub open spec fn mode_spec_of(m: VgdModeSpec) -> ModeSpec {
    ModeSpec { width: m.width, height: m.height, refresh_millihz: m.refresh_millihz }
}

fn mode_spec(m: &VgdModeSpec) -> (r: ModeSpec)
    ensures
        r == mode_spec_of(*m),
{
    ModeSpec { width: m.width, height: m.height, refresh_millihz: m.refresh_millihz }
}

fn mode_specs(m: &[VgdModeSpec; 4]) -> (r: [ModeSpec; 4])
    ensures
        r@ == m@.map_values(|x: VgdModeSpec| mode_spec_of(x)),
{
    let r = [mode_spec(&m[0]), mode_spec(&m[1]), mode_spec(&m[2]), mode_spec(&m[3])];
    assert(r@ =~= m@.map_values(|x: VgdModeSpec| mode_spec_of(x)));
    r
}

/// What a handshake told.
pub fn handshake_caps(h: &HandshakeReply) -> (r: VgdCaps)
    ensures
        r == (VgdCaps {
            proto_major: h.driver_proto_major,
            proto_minor: h.driver_proto_minor,
            driver_build: h.driver_build,
            caps: h.caps,
            max_monitors: h.max_monitors,
            watchdog_secs: h.watchdog_secs,
        }),
{
    VgdCaps {
        proto_major: h.driver_proto_major,
        proto_minor: h.driver_proto_minor,
        driver_build: h.driver_build,
        caps: h.caps,
        max_monitors: h.max_monitors,
        watchdog_secs: h.watchdog_secs,
    }
}

/// The request for a monitor. The EDID serial is left to the driver.
pub fn create_request(q: &VgdCreateRequest) -> (r: CreateMonitorRequest)
    ensures
        r.session_id == q.session_id,
        r.display_id == q.display_id,
        r.adapter_luid == q.adapter_luid,
        r.lease_timeout_ms == q.lease_timeout_ms,
        r.bit_depth == q.bit_depth,
        r.hdr == q.hdr,
        r.edid_serial == 0,
        r.flags == q.flags,
        r.mode_count == q.mode_count,
        r.modes@ == q.modes@.map_values(|x: VgdModeSpec| mode_spec_of(x)),
        r.physical_width_mm == q.physical_width_mm,
        r.physical_height_mm == q.physical_height_mm,
        r.friendly_name == q.friendly_name,
        r.max_nits == q.max_nits,
        r.reserved0 == 0,
{
    CreateMonitorRequest {
        session_id: q.session_id,
        display_id: q.display_id,
        adapter_luid: q.adapter_luid,
        lease_timeout_ms: q.lease_timeout_ms,
        bit_depth: q.bit_depth,
        hdr: q.hdr,
        edid_serial: 0,
        flags: q.flags,
        mode_count: q.mode_count,
        modes: mode_specs(&q.modes),
        physical_width_mm: q.physical_width_mm,
        physical_height_mm: q.physical_height_mm,
        friendly_name: q.friendly_name,
        max_nits: q.max_nits,
        reserved0: 0,
    }
}

/// The driver's answer to a request for a monitor.
pub fn create_reply(a: &CreateMonitorReply) -> (r: VgdCreateReply)
    ensures
        r == (VgdCreateReply {
            session_id: a.session_id,
            display_id: a.display_id,
            result: a.result,
            ring_slots: a.ring_slots,
            connector_index: a.connector_index,
        }),
{
    VgdCreateReply {
        session_id: a.session_id,
        display_id: a.display_id,
        result: a.result,
        ring_slots: a.ring_slots,
        connector_index: a.connector_index,
    }
}

/// The request for another list of modes.
pub fn update_request(q: &VgdUpdateModesRequest) -> (r: UpdateModesRequest)
    ensures
        r.session_id == q.session_id,
        r.flags == q.flags,
        r.mode_count == q.mode_count,
        r.modes@ == q.modes@.map_values(|x: VgdModeSpec| mode_spec_of(x)),
        r.reserved@ == seq![0u32, 0u32, 0u32, 0u32],
{
    let r = UpdateModesRequest {
        session_id: q.session_id,
        flags: q.flags,
        mode_count: q.mode_count,
        modes: mode_specs(&q.modes),
        reserved: [0, 0, 0, 0],
    };
    assert(r.reserved@ =~= seq![0u32, 0u32, 0u32, 0u32]);
    r
}

/// The driver's answer to a request for another list of modes.
pub fn update_reply(a: &UpdateModesReply) -> (r: VgdUpdateModesReply)
    ensures
        r == (VgdUpdateModesReply {
            session_id: a.session_id,
            result: a.result,
            mode_count: a.mode_count,
            accepted: a.accepted_count,
            requested: a.requested_count,
            flags: a.status_flags,
            rejected: a.rejected_count,
            first_rejected: a.first_rejected_index,
            blocking_mode: if a.has_status(update_status::BLOCKED) {
                a.blocking_index
            } else {
                NO_MODE_INDEX
            },
        }),
{
    VgdUpdateModesReply {
        session_id: a.session_id,
        result: a.result,
        mode_count: a.mode_count,
        accepted: a.accepted(),
        requested: a.requested(),
        flags: a.flags(),
        rejected: a.rejected(),
        first_rejected: a.first_rejected(),
        blocking_mode: a.blocking_mode_idx(),
    }
}

/// The header of a ring, with the transport it uses.
pub fn ring_status(h: &RingHeader, transport_flags: u32) -> (r: VgdRingStatus)
    ensures
        r == (VgdRingStatus {
            generation: h.ring_generation,
            state: h.state,
            transport_flags,
            reserved: 0,
            latest_sequence: h.latest_sequence,
            frames_published: h.frames_published,
            frames_dropped: h.frames_dropped,
            heartbeat_qpc: h.driver_heartbeat_qpc,
            qpc_frequency: h.qpc_frequency,
        }),
{
    VgdRingStatus {
        generation: h.ring_generation,
        state: h.state,
        transport_flags,
        reserved: 0,
        latest_sequence: h.latest_sequence,
        frames_published: h.frames_published,
        frames_dropped: h.frames_dropped,
        heartbeat_qpc: h.driver_heartbeat_qpc,
        qpc_frequency: h.qpc_frequency,
    }
}

/// Where the cursor is, as its section says.
pub fn cursor_state(h: &CursorHeader) -> (r: VgdCursorState)
    ensures
        r == (VgdCursorState {
            x: h.x,
            y: h.y,
            visible: if h.visible != 0 {
                1
            } else {
                0
            },
            shape_generation: h.shape_generation,
            position_qpc: h.position_qpc,
        }),
{
    VgdCursorState {
        x: h.x,
        y: h.y,
        visible: if h.visible != 0 {
            1
        } else {
            0
        },
        shape_generation: h.shape_generation,
        position_qpc: h.position_qpc,
    }
}

/// What a call returns: the driver's code, or that the operating system failed.
pub fn call_result(reply: Option<i32>) -> (r: i32)
    ensures
        r == (match reply {
            Some(code) => code,
            None => VGD_ERR_IO,
        }),
{
    match reply {
        Some(code) => code,
        None => VGD_ERR_IO,
    }
}

/// The error number to remember of a failure, as the operating system counts: the same
/// 32 bits, unsigned; 0 if there is none.
pub fn os_error(raw: Option<i32>) -> (r: u32)
    ensures
        r == (match raw {
            Some(code) => crate::proto::wire::i32_bits(code),
            None => 0,
        }),
{
    match raw {
        Some(code) => {
            let bits: u32 = code as u32;
            assert(code < 0 ==> bits == code + 0x1_0000_0000) by (bit_vector)
                requires
                    bits == code as u32,
            ;
            bits
        },
        None => 0,
    }
}

/// The name of a slot's texture, and the number of units in it.
pub fn vgd_slot_texture_name(session_id: u64, generation: u32, slot: u32, out: &mut [u16; 96]) -> (r:
    u32)
    ensures
        r == slot_texture_units(session_id, generation, slot).len(),
        final(out)@ == nul_padded(slot_texture_units(session_id, generation, slot), 96),
{
    let len: usize = slot_texture_name(session_id, generation, slot, out);
    len as u32
}

/// The literals of the C interface are those of the protocol.
pub proof fn law_interface_constants_agree()
    ensures
        VGD_CAP_HDR10 == caps::HDR10,
        VGD_CAP_SDR10_BIT == caps::SDR10_BIT,
        VGD_CAP_HW_CURSOR == caps::HW_CURSOR,
        VGD_CAP_DYNAMIC_MODES == caps::DYNAMIC_MODES,
        VGD_CAP_D3D12_FENCE_TRANSPORT == caps::D3D12_FENCE_TRANSPORT,
        VGD_CAP_FENCE_TRANSPORT_REQUIRED == caps::FENCE_TRANSPORT_REQUIRED,
        VGD_CREATE_D3D12_FENCE_TRANSPORT == create_flags::D3D12_FENCE_TRANSPORT,
        VGD_CREATE_FENCE_TRANSPORT_REQUIRED == create_flags::FENCE_TRANSPORT_REQUIRED,
        VGD_CURSOR_KIND_ALPHA == cursor_kind::ALPHA,
        VGD_CURSOR_KIND_MASKED == cursor_kind::MASKED,
        VGD_CURSOR_SHAPE_BUFFER_SIZE == CURSOR_MAX_DIM * CURSOR_MAX_DIM * 4,
        VGD_NO_REJECTED_INDEX == NO_REJECTED_INDEX,
        VGD_NO_MODE_INDEX == NO_MODE_INDEX,
        VGD_UPDATE_PENDING == update_status::PENDING,
        VGD_UPDATE_PARTIAL == update_status::PARTIAL,
        VGD_UPDATE_BLOCKED == update_status::BLOCKED,
{
}

/// A mode crosses the interface number by number.
pub proof fn law_modes_cross_unchanged(m: VgdModeSpec)
    ensures
        mode_spec_of(m).width == m.width,
        mode_spec_of(m).height == m.height,
        mode_spec_of(m).refresh_millihz == m.refresh_millihz,
{
}

/// The literals as C headers have them.
pub proof fn law_interface_values()
    ensures
        VGD_ERR_IO == -1000,
        VGD_CAP_HDR10 == 1,
        VGD_CAP_SDR10_BIT == 4,
        VGD_CAP_HW_CURSOR == 32,
        VGD_CAP_DYNAMIC_MODES == 512,
        VGD_CAP_D3D12_FENCE_TRANSPORT == 1024,
        VGD_CAP_FENCE_TRANSPORT_REQUIRED == 2048,
        VGD_CREATE_D3D12_FENCE_TRANSPORT == 4,
        VGD_CREATE_FENCE_TRANSPORT_REQUIRED == 8,
        VGD_CURSOR_KIND_ALPHA == 1,
        VGD_CURSOR_KIND_MASKED == 3,
        VGD_CURSOR_SHAPE_BUFFER_SIZE == 262_144,
        VGD_NO_REJECTED_INDEX == 0xFFFF_FFFF,
        VGD_NO_MODE_INDEX == 0xFFFF_FFFF,
        VGD_UPDATE_PENDING == 1,
        VGD_UPDATE_PARTIAL == 2,
        VGD_UPDATE_BLOCKED == 4,
{
}

} // verus!
