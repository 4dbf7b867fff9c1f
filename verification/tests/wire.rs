use luminal_vgd::proto::ioctl::{ctl_code, IOCTL_HANDSHAKE, IOCTL_UPDATE_MODES};
use luminal_vgd::proto::messages::{
    CREATE_MONITOR_REPLY_SIZE, CREATE_MONITOR_REQUEST_SIZE, GET_STATUS_REPLY_SIZE,
    HANDSHAKE_REPLY_SIZE, HANDSHAKE_REQUEST_SIZE, MODE_SPEC_SIZE, MONITOR_STATUS_SIZE,
    PERMANENT_POOL_CONFIG_SIZE, PING_REQUEST_SIZE, QUERY_LEASE_REPLY_SIZE,
    QUERY_PERMANENT_POOL_REPLY_SIZE, UPDATE_MODES_REPLY_SIZE, UPDATE_MODES_REQUEST_SIZE,
};
use luminal_vgd::proto::names::{cursor_section_name, ring_section_name, slot_texture_name};
use luminal_vgd::proto::wire::{put_i32, put_u16, put_u32, put_u64, Reader};
use luminal_vgd::proto::{
    versions_compatible, CreateMonitorReply, CreateMonitorRequest, CursorHeader,
    DestroyMonitorRequest, GetStatusReply, HandshakeReply, HandshakeRequest, Hdr10StaticMetadata,
    ModeSpec, MonitorStatus, PermanentPoolConfig, PingRequest, QueryLeaseReply, QueryLeaseRequest,
    QueryPermanentPoolReply, RectU32, SetRenderAdapterRequest, SlotMetadata, UpdateModesReply,
    UpdateModesRequest,
};

const MODES: [ModeSpec; 4] = [
    ModeSpec { width: 1, height: 2, refresh_millihz: 3 },
    ModeSpec { width: 4, height: 5, refresh_millihz: 6 },
    ModeSpec { width: 7, height: 8, refresh_millihz: 9 },
    ModeSpec { width: 10, height: 11, refresh_millihz: u32::MAX },
];

fn pool_config() -> PermanentPoolConfig {
    PermanentPoolConfig {
        count: 1,
        width: 2,
        height: 3,
        refresh_millihz: 4,
        bit_depth: 5,
        hdr: 6,
        physical_width_mm: 7,
        physical_height_mm: 8,
        name: [0xABCD; 32],
    }
}

fn status(n: u64) -> MonitorStatus {
    MonitorStatus {
        session_id: n,
        display_id: n + 1,
        adapter_luid: n + 2,
        latest_sequence: n + 3,
        frames_published: n + 4,
        frames_dropped: n + 5,
        last_ping_ms: n + 6,
        width: 7,
        height: 8,
        refresh_millihz: 9,
        bit_depth: 10,
        hdr: 1,
        ring_generation: 12,
        ring_state: 2,
        last_error: -13,
        connector_index: 14,
        lease_timeout_ms: 15,
    }
}

#[test]
fn integers_are_little_endian() {
    let mut out = Vec::new();
    put_u16(&mut out, 0x0102);
    put_u32(&mut out, 0x0304_0506);
    put_u64(&mut out, 0x0708_090A_0B0C_0D0E);
    put_i32(&mut out, -2);
    assert_eq!(
        out,
        vec![2, 1, 6, 5, 4, 3, 0xE, 0xD, 0xC, 0xB, 0xA, 9, 8, 7, 0xFE, 0xFF, 0xFF, 0xFF]
    );
    let mut r = Reader::new(&out);
    assert_eq!(r.u16(), Some(0x0102));
    assert_eq!(r.u32(), Some(0x0304_0506));
    assert_eq!(r.u64(), Some(0x0708_090A_0B0C_0D0E));
    assert_eq!(r.i32(), Some(-2));
    assert_eq!(r.u16(), None, "the end");
}

#[test]
fn small_messages_come_back() {
    let m = HandshakeRequest { host_proto_major: 1, host_proto_minor: 0x203 };
    assert_eq!(m.to_bytes(), vec![1, 0, 3, 2]);
    assert_eq!(HandshakeRequest::from_bytes(&m.to_bytes()), Some(m));
    assert_eq!(HandshakeRequest::from_bytes(&m.to_bytes()[..HANDSHAKE_REQUEST_SIZE - 1]), None);

    let m = HandshakeReply {
        driver_proto_major: 1,
        driver_proto_minor: 2,
        driver_build: 3,
        caps: 4,
        max_monitors: 5,
        watchdog_secs: 6,
    };
    assert_eq!(HandshakeReply::from_bytes(&m.to_bytes()), Some(m));
    assert_eq!(HandshakeReply::from_bytes(&m.to_bytes()[..HANDSHAKE_REPLY_SIZE - 1]), None);

    assert_eq!(ModeSpec::from_bytes(&MODES[3].to_bytes()), Some(MODES[3]));
    assert_eq!(ModeSpec::from_bytes(&MODES[3].to_bytes()[..MODE_SPEC_SIZE - 1]), None);
    let m = DestroyMonitorRequest { session_id: 0x0102_0304_0506_0708 };
    assert_eq!(m.to_bytes(), vec![8, 7, 6, 5, 4, 3, 2, 1]);
    assert_eq!(DestroyMonitorRequest::from_bytes(&m.to_bytes()), Some(m));
    let m = PingRequest { session_id: 9 };
    assert_eq!(PingRequest::from_bytes(&m.to_bytes()), Some(m));
    assert_eq!(PingRequest::from_bytes(&m.to_bytes()[..PING_REQUEST_SIZE - 1]), None);
    let m = SetRenderAdapterRequest { adapter_luid: 9 };
    assert_eq!(SetRenderAdapterRequest::from_bytes(&m.to_bytes()), Some(m));
    let m = QueryLeaseRequest { session_id: 9 };
    assert_eq!(QueryLeaseRequest::from_bytes(&m.to_bytes()), Some(m));
    let m = QueryLeaseReply {
        session_id: 1,
        display_id: 2,
        remaining_ms: 3,
        connector_index: 4,
        result: -5,
        reserved: 6,
    };
    assert_eq!(QueryLeaseReply::from_bytes(&m.to_bytes()), Some(m));
    assert_eq!(m.to_bytes().len(), QUERY_LEASE_REPLY_SIZE);
}

#[test]
fn large_messages_come_back() {
    let m = CreateMonitorRequest {
        session_id: 1,
        display_id: 2,
        adapter_luid: 3,
        lease_timeout_ms: 4,
        bit_depth: 5,
        hdr: 6,
        edid_serial: 7,
        flags: 8,
        mode_count: 9,
        modes: MODES,
        physical_width_mm: 10,
        physical_height_mm: 11,
        friendly_name: [0x1234; 32],
        max_nits: 12,
        reserved0: 13,
    };
    assert_eq!(CreateMonitorRequest::from_bytes(&m.to_bytes()), Some(m));
    assert_eq!(m.to_bytes().len(), CREATE_MONITOR_REQUEST_SIZE);
    let mut longer = m.to_bytes();
    longer.extend_from_slice(&[1, 2, 3]);
    assert_eq!(CreateMonitorRequest::from_bytes(&longer), Some(m), "what follows is ignored");

    let m = CreateMonitorReply {
        session_id: 1,
        display_id: 2,
        result: -3,
        ring_slots: 4,
        connector_index: 5,
        reserved: 6,
        ring_section_name: [0x4321; 64],
    };
    assert_eq!(CreateMonitorReply::from_bytes(&m.to_bytes()), Some(m));
    assert_eq!(m.to_bytes().len(), CREATE_MONITOR_REPLY_SIZE);

    let m = pool_config();
    assert_eq!(PermanentPoolConfig::from_bytes(&m.to_bytes()), Some(m));
    assert_eq!(m.to_bytes().len(), PERMANENT_POOL_CONFIG_SIZE);
    let m = QueryPermanentPoolReply { config: pool_config(), result: -12, reserved: 1 };
    assert_eq!(QueryPermanentPoolReply::from_bytes(&m.to_bytes()), Some(m));
    assert_eq!(m.to_bytes().len(), QUERY_PERMANENT_POOL_REPLY_SIZE);

    let m = UpdateModesRequest {
        session_id: 1,
        flags: 2,
        mode_count: 3,
        modes: MODES,
        reserved: [4, 5, 6, 7],
    };
    assert_eq!(UpdateModesRequest::from_bytes(&m.to_bytes()), Some(m));
    assert_eq!(m.to_bytes().len(), UPDATE_MODES_REQUEST_SIZE);
    let mut m = UpdateModesReply::new(9);
    m.set_detail(1, 3, 2);
    m.set_rejected(2, Some(0));
    m.set_blocked(3);
    assert_eq!(UpdateModesReply::from_bytes(&m.to_bytes()), Some(m));
    assert_eq!(m.to_bytes().len(), UPDATE_MODES_REPLY_SIZE);

    let m = status(40);
    assert_eq!(MonitorStatus::from_bytes(&m.to_bytes()), Some(m));
    assert_eq!(m.to_bytes().len(), MONITOR_STATUS_SIZE);
    let mut monitors = [status(0); 16];
    for (i, m) in monitors.iter_mut().enumerate() {
        *m = status(100 * i as u64);
    }
    let m = GetStatusReply {
        uptime_ms: 1,
        driver_build: 2,
        proto_major: 3,
        proto_minor: 4,
        caps: 5,
        max_monitors: 6,
        watchdog_secs: 7,
        monitor_count: 8,
        monitors,
    };
    assert_eq!(GetStatusReply::from_bytes(&m.to_bytes()), Some(m));
    assert_eq!(m.to_bytes().len(), GET_STATUS_REPLY_SIZE);
}

#[test]
fn section_structures_have_their_layout() {
    let hdr = Hdr10StaticMetadata {
        red_primary: [1, 2],
        green_primary: [3, 4],
        blue_primary: [5, 6],
        white_point: [7, 8],
        max_mastering_luminance: 9,
        min_mastering_luminance: 10,
        max_content_light_level: 11,
        max_frame_average_light_level: 12,
    };
    let slot = SlotMetadata {
        state: 1,
        flags: 2,
        sequence: 3,
        present_qpc: 4,
        hdr,
        dirty_count: 5,
        dirty_bound: RectU32 { left: 6, top: 7, right: 8, bottom: 9 },
        reserved: [10, 11],
    };
    let b = slot.to_bytes();
    assert_eq!(b.len(), 80);
    assert_eq!((b[0], b[4], b[8], b[16]), (1, 2, 3, 4));
    assert_eq!((b[24], b[40], b[44], b[48], b[50]), (1, 9, 10, 11, 12));
    assert_eq!((b[52], b[56], b[68], b[72], b[76]), (5, 6, 9, 10, 11));
    let c = CursorHeader {
        magic: 1,
        version: 2,
        shape_generation: 3,
        width: 4,
        height: 5,
        hotspot_x: 6,
        hotspot_y: 7,
        kind: 8,
        x: -1,
        y: 10,
        visible: 1,
        reserved0: 0,
        position_qpc: 12,
        reserved1: 0,
    };
    let b = c.to_bytes();
    assert_eq!(b.len(), 64);
    assert_eq!((b[8], b[28], b[32], b[36], b[48]), (3, 8, 0xFF, 10, 12));
}

#[test]
fn control_codes_encode_their_function() {
    assert_eq!(ctl_code(0x800), IOCTL_HANDSHAKE);
    assert_eq!(ctl_code(0x809), IOCTL_UPDATE_MODES);
    assert_eq!(IOCTL_UPDATE_MODES, 0x0022_2024);
}

#[test]
fn newer_drivers_keep_their_hosts() {
    assert!(versions_compatible(0, 3, 0, 3));
    assert!(versions_compatible(0, 3, 0, 8));
    assert!(!versions_compatible(0, 9, 0, 8));
    assert!(!versions_compatible(1, 8, 0, 8));
}

#[test]
fn object_names_tell_sessions_generations_and_slots_apart() {
    let (mut a, mut b) = ([0u16; 64], [0u16; 64]);
    let n = ring_section_name(0xAB, &mut a);
    assert_eq!(String::from_utf16(&a[..n]).unwrap(), "Global\\LuminalVGD-ring-00000000000000ab");
    let n = cursor_section_name(0xAB, &mut b);
    assert_eq!(String::from_utf16(&b[..n]).unwrap(), "Global\\LuminalVGD-cur-00000000000000ab");
    assert_ne!(a, b);
    ring_section_name(0xAC, &mut b);
    assert_ne!(a, b);
    let (mut x, mut y) = ([0u16; 96], [0u16; 96]);
    slot_texture_name(1, 2, 3, &mut x);
    for (s, g, t) in [(2u64, 2u32, 3u32), (1, 3, 3), (1, 2, 4)] {
        slot_texture_name(s, g, t, &mut y);
        assert_ne!(x, y);
    }
}
