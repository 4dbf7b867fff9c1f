use luminal_vgd::host::ffi::{
    call_result, create_reply, create_request, cursor_state, handshake_caps, os_error, ring_status,
    update_reply, update_request, vgd_slot_texture_name, VgdCreateRequest, VgdModeSpec,
    VgdUpdateModesRequest, VGD_CAP_DYNAMIC_MODES, VGD_ERR_IO, VGD_NO_MODE_INDEX,
    VGD_NO_REJECTED_INDEX, VGD_UPDATE_BLOCKED, VGD_UPDATE_PARTIAL,
};
use luminal_vgd::host::stress::{
    new_output, parse_args, session_id, stress_request, verdict, Arg, Delivery, Options, Progress,
    Transitions,
};
use luminal_vgd::proto::{
    caps, create_flags, CreateMonitorReply, CursorHeader, HandshakeReply, ModeSpec, RingHeader,
    UpdateModesReply, LEASE_TIMEOUT_USE_DEFAULT,
};

fn vgd_mode(refresh_millihz: u32) -> VgdModeSpec {
    VgdModeSpec { width: 1920, height: 1080, refresh_millihz }
}

#[test]
fn handshake_and_create_values_cross_the_interface() {
    let h = HandshakeReply {
        driver_proto_major: 0,
        driver_proto_minor: 8,
        driver_build: 42,
        caps: caps::DYNAMIC_MODES,
        max_monitors: 4,
        watchdog_secs: 3,
    };
    let c = handshake_caps(&h);
    assert_eq!((c.proto_major, c.proto_minor, c.driver_build), (0, 8, 42));
    assert_eq!(c.caps & VGD_CAP_DYNAMIC_MODES, 512);
    assert_eq!((c.max_monitors, c.watchdog_secs), (4, 3));

    let q = VgdCreateRequest {
        session_id: 1,
        display_id: 2,
        adapter_luid: 3,
        lease_timeout_ms: 4,
        bit_depth: 10,
        hdr: 1,
        flags: 5,
        mode_count: 2,
        modes: [vgd_mode(60_000), vgd_mode(120_000), vgd_mode(1), vgd_mode(2)],
        physical_width_mm: 6,
        physical_height_mm: 7,
        friendly_name: [9; 32],
        max_nits: 800,
    };
    let r = create_request(&q);
    assert_eq!((r.session_id, r.display_id, r.adapter_luid), (1, 2, 3));
    assert_eq!((r.lease_timeout_ms, r.bit_depth, r.hdr, r.flags), (4, 10, 1, 5));
    assert_eq!((r.edid_serial, r.reserved0, r.max_nits, r.mode_count), (0, 0, 800, 2));
    assert_eq!(r.modes[1], ModeSpec { width: 1920, height: 1080, refresh_millihz: 120_000 });
    assert_eq!(r.modes[3].refresh_millihz, 2);
    assert_eq!(r.friendly_name, [9; 32]);

    let a = CreateMonitorReply {
        session_id: 1,
        display_id: 2,
        result: -3,
        ring_slots: 3,
        connector_index: 4,
        reserved: 5,
        ring_section_name: [7; 64],
    };
    let r = create_reply(&a);
    assert_eq!((r.session_id, r.display_id, r.result), (1, 2, -3));
    assert_eq!((r.ring_slots, r.connector_index), (3, 4));
}

#[test]
fn update_values_cross_the_interface() {
    let q = VgdUpdateModesRequest {
        session_id: 8,
        flags: 1,
        mode_count: 1,
        modes: [vgd_mode(240_000); 4],
    };
    let r = update_request(&q);
    assert_eq!((r.session_id, r.flags, r.mode_count, r.reserved), (8, 1, 1, [0; 4]));
    assert_eq!(r.modes[0].refresh_millihz, 240_000);

    let mut a = UpdateModesReply::new(8);
    a.set_detail(1, 2, VGD_UPDATE_PARTIAL);
    a.set_rejected(1, Some(1));
    let r = update_reply(&a);
    assert_eq!((r.accepted, r.requested, r.rejected, r.first_rejected), (1, 2, 1, 1));
    assert_eq!(r.blocking_mode, VGD_NO_MODE_INDEX);
    a.set_rejected(0, None);
    a.set_blocked(3);
    let r = update_reply(&a);
    assert_eq!(r.flags, VGD_UPDATE_PARTIAL | VGD_UPDATE_BLOCKED);
    assert_eq!(r.first_rejected, VGD_NO_REJECTED_INDEX);
    assert_eq!(r.blocking_mode, 3);
}

#[test]
fn snapshots_and_results_cross_the_interface() {
    let h = RingHeader {
        magic: 1,
        header_version: 1,
        ring_generation: 4,
        slot_count: 3,
        state: 1,
        reserved0: 0,
        latest_sequence: 9,
        latest_present_qpc: 8,
        frames_published: 7,
        frames_dropped: 6,
        driver_heartbeat_qpc: 5,
        qpc_frequency: 10,
    };
    let s = ring_status(&h, 4);
    assert_eq!((s.generation, s.state, s.transport_flags, s.reserved), (4, 1, 4, 0));
    assert_eq!((s.latest_sequence, s.frames_published, s.frames_dropped), (9, 7, 6));
    assert_eq!((s.heartbeat_qpc, s.qpc_frequency), (5, 10));
    let c = CursorHeader {
        magic: 0,
        version: 1,
        shape_generation: 6,
        width: 1,
        height: 1,
        hotspot_x: 0,
        hotspot_y: 0,
        kind: 1,
        x: -1,
        y: 2,
        visible: 9,
        reserved0: 0,
        position_qpc: 3,
        reserved1: 0,
    };
    let s = cursor_state(&c);
    assert_eq!((s.x, s.y, s.visible, s.shape_generation, s.position_qpc), (-1, 2, 1, 6, 3));
    assert_eq!(call_result(None), VGD_ERR_IO);
    assert_eq!(call_result(Some(-8)), -8);
    assert_eq!(os_error(Some(-2)), 0xFFFF_FFFE);
    assert_eq!(os_error(Some(5)), 5);
    assert_eq!(os_error(None), 0);
    let mut out = [0u16; 96];
    assert_eq!(vgd_slot_texture_name(0xAB, 2, 1, &mut out), 52);
    assert_eq!(
        String::from_utf16(&out[..52]).unwrap(),
        "Global\\LuminalVGD-tex-00000000000000ab-g00000002-s01"
    );
    assert_eq!(out[52], 0);
}

#[test]
fn stress_arguments() {
    let it = Arg::Iterations;
    assert_eq!(parse_args(&[]), Options::Run { iterations: 50 });
    assert_eq!(parse_args(&[it, Arg::Number(7)]), Options::Run { iterations: 7 });
    assert_eq!(
        parse_args(&[it, Arg::Number(7), it, Arg::Number(9)]),
        Options::Run { iterations: 9 }
    );
    assert_eq!(parse_args(&[it]), Options::NeedsNumber);
    assert_eq!(parse_args(&[it, Arg::Other]), Options::NeedsNumber);
    assert_eq!(parse_args(&[it, it]), Options::NeedsNumber);
    assert_eq!(parse_args(&[Arg::Number(3)]), Options::Unknown(0));
    assert_eq!(parse_args(&[it, Arg::Number(7), Arg::Other]), Options::Unknown(2));
}

#[test]
fn stress_request_and_session() {
    assert_eq!(session_id(Some(0x1234), 0x5_0006), 0x0006_0000_0000_1234);
    assert_eq!(session_id(None, 2), 0x0002_0000_0000_0001);
    let r = stress_request(5);
    assert_eq!((r.session_id, r.display_id, r.mode_count), (5, 0, 1));
    assert_eq!(r.lease_timeout_ms, LEASE_TIMEOUT_USE_DEFAULT);
    assert_eq!(r.flags, create_flags::EPHEMERAL_IDENTITY);
    assert_eq!(r.modes[0], ModeSpec { width: 1920, height: 1080, refresh_millihz: 60_000 });
    assert_eq!(r.modes[1], ModeSpec { width: 0, height: 0, refresh_millihz: 0 });
    assert_eq!(String::from_utf16(&r.friendly_name[..17]).unwrap(), "LuminalVGD AltTab");
    assert_eq!(r.friendly_name[17], 0);
}

#[test]
fn stress_finds_the_new_output() {
    let (a, b, c) = ([1u16; 32], [2u16; 32], [3u16; 32]);
    assert_eq!(new_output(&[a, b], &[b, a]), None);
    assert_eq!(new_output(&[a, b], &[a, c, b]), Some(1));
    assert_eq!(new_output(&[], &[a]), Some(0));
    assert_eq!(new_output(&[a], &[]), None);
}

#[test]
fn stress_watches_progress_and_delivery() {
    let mut p = Progress { beat_ms: 0 };
    p.bump(100);
    assert!(!p.wedged(15_100));
    assert!(p.wedged(15_101));
    assert!(!p.wedged(50));

    let mut d = Delivery::new(0);
    assert!(d.claimed(3, 10));
    assert!(!d.claimed(3, 20), "the same frame again is not progress");
    assert_eq!((d.delivered, d.last_sequence, d.progress_ms), (1, 3, 10));
    let look = d.look(3, 900);
    assert!(!look.stalled && !look.ping);
    assert_eq!(d.progress_ms, 900, "nothing due is progress");
    let look = d.look(4, 5_900);
    assert!(!look.stalled && look.ping);
    let look = d.look(4, 5_901);
    assert!(look.stalled);
    assert_eq!((d.stalls, d.progress_ms), (1, 5_901));
    assert!(!d.look(4, 5_902).stalled, "counted once");
}

#[test]
fn stress_verdict() {
    let mut t = Transitions::new();
    for i in 0..9 {
        assert!(!t.round_trip(10 + i, 5));
    }
    assert!(t.round_trip(3, 50));
    assert_eq!((t.done, t.max_enter_ms, t.max_leave_ms), (10, 18, 50));
    assert!(verdict(Some(&t), 0));
    assert!(!verdict(Some(&t), 1));
    t.failed();
    assert!(!verdict(Some(&t), 0));
    assert!(!verdict(None, 0));
}
