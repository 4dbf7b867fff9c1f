use luminal_vgd::adapter::AdapterInfo;
use luminal_vgd::dispatch::{
    dispatch, watchdog_tick, DeviceState, DriverConfig, Effect, HandleCtx, Status, TDR_DUCK_DEVICE,
    TDR_DUCK_DISPLAY,
};
use luminal_vgd::modepush::{committed_token, live_gate, CommittedMode, LiveGate, PushOutcome};
use luminal_vgd::modes::Mode;
use luminal_vgd::persist::parse;
use luminal_vgd::proto::messages::{
    CREATE_MONITOR_REPLY_SIZE, GET_STATUS_REPLY_SIZE, HANDSHAKE_REPLY_SIZE, QUERY_LEASE_REPLY_SIZE,
    QUERY_PERMANENT_POOL_REPLY_SIZE, UPDATE_MODES_REPLY_SIZE,
};
use luminal_vgd::proto::{
    caps, err, ioctl, names, CreateMonitorReply, CreateMonitorRequest, DestroyMonitorRequest,
    GetStatusReply, HandshakeReply, HandshakeRequest, ModeSpec, PermanentPoolConfig, PingRequest,
    QueryLeaseReply, QueryLeaseRequest, QueryPermanentPoolReply, SetRenderAdapterRequest,
    UpdateModesReply, UpdateModesRequest, CREATE_MONITOR_REQUEST_SIZE_V3, DEFAULT_RING_SLOTS,
    LEASE_TIMEOUT_USE_DEFAULT, MAX_MODES_PER_MONITOR, NO_MODE_INDEX, NO_REJECTED_INDEX,
    PROTO_VERSION_MAJOR, PROTO_VERSION_MINOR, PROTO_VERSION_MINOR_REQUIRED,
    UPDATE_MODES_REQUEST_SIZE_V5,
};
use luminal_vgd::session::ModeUpdateResult;

const CAPS: u32 =
    caps::HDR10 | caps::SDR10_BIT | caps::DIRTY_RECTS | caps::MULTI_MODE | caps::PERMANENT_POOL;

fn dev() -> DeviceState {
    let mut d = DeviceState::new(
        DriverConfig { caps: CAPS, driver_build: 42, ..DriverConfig::default() },
        None,
    );
    d.set_adapters(vec![AdapterInfo {
        luid: 0x20,
        vram_bytes: 16 << 30,
        name: "RTX 5080".into(),
        software: false,
    }]);
    d
}

fn code_of(b: &[u8]) -> i32 {
    i32::from_le_bytes([b[0], b[1], b[2], b[3]])
}

fn shake(dev: &mut DeviceState, handle: &mut HandleCtx) {
    let req = HandshakeRequest {
        host_proto_major: PROTO_VERSION_MAJOR,
        host_proto_minor: PROTO_VERSION_MINOR,
    };
    let mut out = vec![0u8; HANDSHAKE_REPLY_SIZE];
    let r = dispatch(dev, handle, 0, ioctl::IOCTL_HANDSHAKE, &req.to_bytes(), &mut out);
    assert_eq!(r.status, Status::Success);
    assert!(handle.handshaken);
}

fn create_req(session_id: u64) -> CreateMonitorRequest {
    let mut modes = [ModeSpec::default(); 4];
    modes[0] = ModeSpec { width: 2560, height: 1440, refresh_millihz: 120_000 };
    CreateMonitorRequest {
        session_id,
        display_id: 0,
        adapter_luid: 0,
        lease_timeout_ms: LEASE_TIMEOUT_USE_DEFAULT,
        bit_depth: 8,
        hdr: 0,
        edid_serial: 0,
        flags: 0,
        mode_count: 1,
        modes,
        physical_width_mm: 0,
        physical_height_mm: 0,
        friendly_name: [0; 32],
        max_nits: 0,
        reserved0: 0,
    }
}

fn do_create(d: &mut DeviceState, h: &mut HandleCtx, req: &CreateMonitorRequest) -> (CreateMonitorReply, Vec<Effect>) {
    let mut out = vec![0u8; CREATE_MONITOR_REPLY_SIZE];
    let r = dispatch(d, h, 1000, ioctl::IOCTL_CREATE_MONITOR, &req.to_bytes(), &mut out);
    assert_eq!(r.status, Status::Success);
    (CreateMonitorReply::from_bytes(&out).unwrap(), r.effects)
}

#[test]
fn create_monitor_full_round_trip_with_identity_and_persist() {
    let mut d = dev();
    let mut h = HandleCtx::default();
    shake(&mut d, &mut h);

    let mut req = create_req(0xA1);
    req.display_id = 0xCAFE;
    let (reply, effects) = do_create(&mut d, &mut h, &req);
    assert_eq!(reply.result, err::OK);
    assert_eq!(reply.display_id, 0xCAFE);
    assert_eq!(reply.ring_slots, DEFAULT_RING_SLOTS);
    let mut expect = [0u16; 64];
    names::ring_section_name(0xA1, &mut expect);
    assert_eq!(reply.ring_section_name, expect);

    assert_eq!(effects.len(), 2, "plug + persist");
    match &effects[0] {
        Effect::PlugMonitor { session_id, display_id, connector_index, modes, targets, adapter_luid, ring_slots, edid, transport_flags } => {
            assert_eq!((*session_id, *display_id), (0xA1, 0xCAFE));
            assert_eq!(*connector_index, 0);
            assert_eq!(modes.len(), 1);
            assert_eq!(targets, modes, "a fresh session publishes its whole superset");
            assert_eq!(*adapter_luid, 0x20);
            assert_eq!(*ring_slots, DEFAULT_RING_SLOTS);
            assert_eq!(*transport_flags, 0);
            let base: u32 = edid[..128].iter().map(|&b| u32::from(b)).sum();
            let ext: u32 = edid[128..].iter().map(|&b| u32::from(b)).sum();
            assert_eq!((base % 256, ext % 256), (0, 0), "both EDID blocks checksum");
        }
        other => panic!("unexpected effect {other:?}"),
    }
    match &effects[1] {
        Effect::PersistState(blob) => {
            let state = parse(blob).unwrap();
            assert_eq!(state.reservations, vec![(0xCAFE, 0)]);
        }
        other => panic!("unexpected effect {other:?}"),
    }
}

#[test]
fn legacy_v3_sized_create_request_is_accepted_with_default_nits() {
    let mut d = dev();
    let mut h = HandleCtx::default();
    shake(&mut d, &mut h);
    let req = create_req(0xB2);
    let full = req.to_bytes();
    let legacy = &full[..CREATE_MONITOR_REQUEST_SIZE_V3];
    let mut out = vec![0u8; CREATE_MONITOR_REPLY_SIZE];
    let r = dispatch(&mut d, &mut h, 1000, ioctl::IOCTL_CREATE_MONITOR, legacy, &mut out);
    assert_eq!(r.status, Status::Success);
    let reply = CreateMonitorReply::from_bytes(&out).unwrap();
    assert_eq!(reply.result, err::OK);
    let mut out2 = vec![0u8; CREATE_MONITOR_REPLY_SIZE];
    let r2 = dispatch(
        &mut d,
        &mut h,
        1000,
        ioctl::IOCTL_CREATE_MONITOR,
        &full[..CREATE_MONITOR_REQUEST_SIZE_V3 - 4],
        &mut out2,
    );
    assert_eq!(r2.status, Status::BadBuffer);
}

#[test]
fn create_request_nits_reaches_the_edid() {
    let mut d = dev();
    let mut h = HandleCtx::default();
    shake(&mut d, &mut h);
    let mut req = create_req(0xC3);
    req.bit_depth = 110;
    req.hdr = 1;
    req.max_nits = 800;
    let (reply, effects) = do_create(&mut d, &mut h, &req);
    assert_eq!(reply.result, err::OK);
    match &effects[0] {
        Effect::PlugMonitor { edid, .. } => {
            assert_eq!(edid[140], 128, "max luminance code for 800 nits");
        }
        other => panic!("unexpected effect {other:?}"),
    }
}

#[test]
fn identity_survives_driver_restart_via_persist_blob() {
    let mut d = dev();
    let mut h = HandleCtx::default();
    shake(&mut d, &mut h);
    let mut req = create_req(1);
    req.display_id = 0xCAFE;
    let (reply, effects) = do_create(&mut d, &mut h, &req);
    assert_eq!(reply.connector_index, 0);
    let blob = match &effects[1] {
        Effect::PersistState(b) => b.clone(),
        _ => unreachable!(),
    };

    let mut d2 = DeviceState::new(
        DriverConfig { caps: CAPS, driver_build: 43, ..DriverConfig::default() },
        Some(&blob),
    );
    d2.set_adapters(vec![AdapterInfo {
        luid: 0x20,
        vram_bytes: 16 << 30,
        name: "RTX 5080".into(),
        software: false,
    }]);
    let mut h2 = HandleCtx::default();
    shake(&mut d2, &mut h2);
    let mut other = create_req(7);
    other.display_id = 0xBEEF;
    let (r_other, _) = do_create(&mut d2, &mut h2, &other);
    assert_eq!(r_other.connector_index, 1, "connector 0 reserved for CAFE");
    let mut back = create_req(8);
    back.display_id = 0xCAFE;
    let (r_back, _) = do_create(&mut d2, &mut h2, &back);
    assert_eq!(r_back.connector_index, 0);
}

#[test]
fn set_render_adapter_steers_default_creates() {
    let mut d = dev();
    d.set_adapters(vec![
        AdapterInfo { luid: 0x10, vram_bytes: 8 << 30, name: "iGPU".into(), software: false },
        AdapterInfo { luid: 0x20, vram_bytes: 16 << 30, name: "dGPU".into(), software: false },
    ]);
    let mut h = HandleCtx::default();
    shake(&mut d, &mut h);

    let mut out4 = vec![0u8; 4];
    let r = dispatch(
        &mut d, &mut h, 0, ioctl::IOCTL_SET_RENDER_ADAPTER,
        &SetRenderAdapterRequest { adapter_luid: 0x10 }.to_bytes(), &mut out4,
    );
    assert_eq!((r.status, code_of(&out4)), (Status::Success, err::OK));

    let (_, effects) = do_create(&mut d, &mut h, &create_req(1));
    match &effects[0] {
        Effect::PlugMonitor { adapter_luid, .. } => assert_eq!(*adapter_luid, 0x10),
        other => panic!("unexpected effect {other:?}"),
    }
}

#[test]
fn query_lease_round_trip() {
    let mut d = dev();
    let mut h = HandleCtx::default();
    shake(&mut d, &mut h);
    let mut req = create_req(5);
    req.lease_timeout_ms = 20_000;
    do_create(&mut d, &mut h, &req);

    let mut out = vec![0u8; QUERY_LEASE_REPLY_SIZE];
    let r = dispatch(
        &mut d, &mut h, 6_000, ioctl::IOCTL_QUERY_LEASE,
        &QueryLeaseRequest { session_id: 5 }.to_bytes(), &mut out,
    );
    assert_eq!(r.status, Status::Success);
    let reply = QueryLeaseReply::from_bytes(&out).unwrap();
    assert_eq!(reply.result, err::OK);
    assert_eq!(reply.remaining_ms, 15_000, "created at 1000, now 6000");

    let r = dispatch(
        &mut d, &mut h, 0, ioctl::IOCTL_QUERY_LEASE,
        &QueryLeaseRequest { session_id: 99 }.to_bytes(), &mut out,
    );
    assert_eq!(r.status, Status::Success);
    assert_eq!(QueryLeaseReply::from_bytes(&out).unwrap().result, err::NO_SUCH_SESSION);
}

#[test]
fn permanent_pool_set_query_and_restart() {
    let mut d = dev();
    let mut h = HandleCtx::default();
    shake(&mut d, &mut h);

    let mut pool = PermanentPoolConfig {
        count: 2,
        width: 1920,
        height: 1080,
        refresh_millihz: 60_000,
        bit_depth: 8,
        hdr: 0,
        physical_width_mm: 0,
        physical_height_mm: 0,
        name: [0; 32],
    };
    let mut out4 = vec![0u8; 4];
    let r = dispatch(&mut d, &mut h, 0, ioctl::IOCTL_SET_PERMANENT_POOL, &pool.to_bytes(), &mut out4);
    assert_eq!(code_of(&out4), err::OK);
    let plugs = r.effects.iter().filter(|e| matches!(e, Effect::PlugMonitor { .. })).count();
    assert_eq!(plugs, 2);
    assert_eq!(d.table.len(), 2);

    let mut fresh = HandleCtx::default();
    let mut out = vec![0u8; QUERY_PERMANENT_POOL_REPLY_SIZE];
    dispatch(&mut d, &mut fresh, 0, ioctl::IOCTL_QUERY_PERMANENT_POOL, &[], &mut out);
    assert_eq!(QueryPermanentPoolReply::from_bytes(&out).unwrap().config.count, 2);

    pool.count = 1;
    let r = dispatch(&mut d, &mut h, 0, ioctl::IOCTL_SET_PERMANENT_POOL, &pool.to_bytes(), &mut out4);
    let unplugs = r.effects.iter().filter(|e| matches!(e, Effect::UnplugMonitor { .. })).count();
    assert_eq!(unplugs, 1);
    assert_eq!(d.table.len(), 1);

    assert!(watchdog_tick(&mut d, u64::MAX).is_empty());

    let blob = match r.effects.last().unwrap() {
        Effect::PersistState(b) => b.clone(),
        _ => panic!("expected persist last"),
    };
    let mut d2 = DeviceState::new(
        DriverConfig { caps: CAPS, driver_build: 42, ..DriverConfig::default() },
        Some(&blob),
    );
    d2.set_adapters(vec![AdapterInfo {
        luid: 0x20, vram_bytes: 16 << 30, name: "RTX 5080".into(), software: false,
    }]);
    let effects = d2.startup(0);
    let plugs = effects.iter().filter(|e| matches!(e, Effect::PlugMonitor { .. })).count();
    assert_eq!(plugs, 1, "pool of 1 recreated at boot");
    assert_eq!(d2.table.len(), 1);
}

#[test]
fn teardown_reset_preserves_pool_for_next_startup() {
    let mut d = dev();
    let mut h = HandleCtx::default();
    shake(&mut d, &mut h);

    let pool = PermanentPoolConfig {
        count: 2,
        width: 1920,
        height: 1080,
        refresh_millihz: 60_000,
        bit_depth: 8,
        hdr: 0,
        physical_width_mm: 0,
        physical_height_mm: 0,
        name: [0; 32],
    };
    let mut out4 = vec![0u8; 4];
    dispatch(&mut d, &mut h, 0, ioctl::IOCTL_SET_PERMANENT_POOL, &pool.to_bytes(), &mut out4);
    assert_eq!(code_of(&out4), err::OK);
    assert_eq!(d.table.len(), 2);

    d.device_teardown_reset();
    assert_eq!(d.table.len(), 0, "lease-disabled pool members removed");

    let effects = d.startup(1_000);
    let plugs = effects.iter().filter(|e| matches!(e, Effect::PlugMonitor { .. })).count();
    assert_eq!(plugs, 2, "pool recreated after teardown reset");
    assert_eq!(d.table.len(), 2);

    d.device_teardown_reset();
    let effects = d.startup(2_000);
    let plugs = effects.iter().filter(|e| matches!(e, Effect::PlugMonitor { .. })).count();
    assert_eq!(plugs, 2);
}

#[test]
fn pool_validation_gates() {
    let mut d = dev();
    let mut h = HandleCtx::default();
    shake(&mut d, &mut h);
    let pool = PermanentPoolConfig {
        count: 5,
        width: 1920,
        height: 1080,
        refresh_millihz: 60_000,
        bit_depth: 8,
        hdr: 0,
        physical_width_mm: 0,
        physical_height_mm: 0,
        name: [0; 32],
    };
    let mut out4 = vec![0u8; 4];
    let r = dispatch(&mut d, &mut h, 0, ioctl::IOCTL_SET_PERMANENT_POOL, &pool.to_bytes(), &mut out4);
    assert_eq!(code_of(&out4), err::BAD_POOL);
    assert!(r.effects.is_empty());
    assert!(d.table.is_empty());
}

#[test]
fn gating_and_buffer_hygiene_hold_for_new_ioctls() {
    let mut d = dev();
    let mut un = HandleCtx::default();
    let mut out4 = vec![0u8; 4];
    dispatch(
        &mut d, &mut un, 0, ioctl::IOCTL_SET_RENDER_ADAPTER,
        &SetRenderAdapterRequest { adapter_luid: 1 }.to_bytes(), &mut out4,
    );
    assert_eq!(code_of(&out4), err::NOT_HANDSHAKEN);

    let mut out = vec![0u8; QUERY_LEASE_REPLY_SIZE];
    dispatch(
        &mut d, &mut un, 0, ioctl::IOCTL_QUERY_LEASE,
        &QueryLeaseRequest { session_id: 1 }.to_bytes(), &mut out,
    );
    assert_eq!(QueryLeaseReply::from_bytes(&out).unwrap().result, err::NOT_HANDSHAKEN);

    let r = dispatch(&mut d, &mut un, 0, ioctl::IOCTL_SET_PERMANENT_POOL, &[0u8; 4], &mut out4);
    assert_eq!(r.status, Status::BadBuffer);
    let mut tiny = vec![0u8; 2];
    let r = dispatch(
        &mut d, &mut un, 0, ioctl::IOCTL_QUERY_LEASE,
        &QueryLeaseRequest { session_id: 1 }.to_bytes(), &mut tiny,
    );
    assert_eq!(r.status, Status::BadBuffer);
}

#[test]
fn destroy_ping_status_still_work_with_new_layout() {
    let mut d = dev();
    let mut h = HandleCtx::default();
    shake(&mut d, &mut h);
    do_create(&mut d, &mut h, &create_req(5));

    let mut out4 = vec![0u8; 4];
    dispatch(&mut d, &mut h, 500, ioctl::IOCTL_PING, &PingRequest { session_id: 5 }.to_bytes(), &mut out4);
    assert_eq!(code_of(&out4), err::OK);

    let mut fresh = HandleCtx::default();
    let mut out = vec![0u8; GET_STATUS_REPLY_SIZE];
    dispatch(&mut d, &mut fresh, 12345, ioctl::IOCTL_GET_STATUS, &[], &mut out);
    let s = GetStatusReply::from_bytes(&out).unwrap();
    assert_eq!(s.monitor_count, 1);
    assert_eq!(s.monitors[0].session_id, 5);
    assert_ne!(s.monitors[0].display_id, 0, "ephemeral identity derived");
    assert_eq!(s.monitors[0].lease_timeout_ms, 10_000);

    let r = dispatch(
        &mut d, &mut h, 600, ioctl::IOCTL_DESTROY_MONITOR,
        &DestroyMonitorRequest { session_id: 5 }.to_bytes(), &mut out4,
    );
    assert_eq!(code_of(&out4), err::OK);
    assert_eq!(r.effects[0], Effect::UnplugMonitor { session_id: 5 });
    assert!(matches!(r.effects[1], Effect::PersistState(_)));
}

#[test]
fn watchdog_reap_emits_unplug_and_persist() {
    let mut d = dev();
    let mut h = HandleCtx::default();
    shake(&mut d, &mut h);
    let mut req = create_req(1);
    req.lease_timeout_ms = 3_000;
    do_create(&mut d, &mut h, &req);

    assert!(watchdog_tick(&mut d, 4_000).is_empty());
    let effects = watchdog_tick(&mut d, 4_001);
    assert_eq!(effects[0], Effect::UnplugMonitor { session_id: 1 });
    assert!(matches!(effects[1], Effect::PersistState(_)));
}

fn update_req(session_id: u64, specs: &[ModeSpec]) -> UpdateModesRequest {
    let mut modes = [ModeSpec::default(); 4];
    modes[..specs.len()].copy_from_slice(specs);
    UpdateModesRequest {
        session_id,
        flags: 0,
        mode_count: specs.len() as u32,
        modes,
        reserved: [0; 4],
    }
}

fn do_update(
    d: &mut DeviceState,
    h: &mut HandleCtx,
    req: &UpdateModesRequest,
) -> (UpdateModesReply, Vec<Effect>) {
    let mut out = vec![0u8; UPDATE_MODES_REPLY_SIZE];
    let r = dispatch(d, h, 2000, ioctl::IOCTL_UPDATE_MODES, &req.to_bytes(), &mut out);
    assert_eq!(r.status, Status::Success);
    (UpdateModesReply::from_bytes(&out).unwrap(), r.effects)
}

fn queued_update(effects: &[Effect]) -> Option<(u64, Vec<Mode>)> {
    effects.iter().find_map(|e| match e {
        Effect::UpdateModes { update_seq, targets, .. } => {
            Some((*update_seq, targets.clone()))
        }
        _ => None,
    })
}

const BASE_120: ModeSpec = ModeSpec { width: 2560, height: 1440, refresh_millihz: 120_000 };
const FG_240: ModeSpec = ModeSpec { width: 2560, height: 1440, refresh_millihz: 240_000 };
const NEVER_CREATED: ModeSpec =
    ModeSpec { width: 2560, height: 1440, refresh_millihz: 360_000 };

fn superset_req(session_id: u64) -> CreateMonitorRequest {
    let mut r = create_req(session_id);
    r.mode_count = 2;
    r.modes[0] = BASE_120;
    r.modes[1] = FG_240;
    r
}

#[test]
fn update_modes_republishes_a_subset_on_a_live_monitor() {
    let mut d = dev();
    let mut h = HandleCtx::default();
    shake(&mut d, &mut h);
    do_create(&mut d, &mut h, &superset_req(0xD4));
    assert_eq!(d.table.get(0xD4).unwrap().target_modes.len(), 2, "all of it, initially");

    let (reply, effects) = do_update(&mut d, &mut h, &update_req(0xD4, &[FG_240]));
    assert_eq!(reply.result, err::OK);
    assert_eq!(reply.session_id, 0xD4);
    assert_eq!(reply.mode_count, 1, "the subset that will be published");
    assert_eq!((reply.accepted(), reply.requested(), reply.rejected()), (1, 1, 0));
    assert_eq!(reply.first_rejected(), NO_REJECTED_INDEX);
    assert!(reply.is_pending(), "queued at the OS, not in force yet");
    assert!(!reply.is_partial());
    assert!(!reply.fully_in_force());

    assert_eq!(effects.len(), 1, "no plug, no unplug, no persist");
    let (seq, targets) = queued_update(&effects).expect("one push queued");
    match &effects[0] {
        Effect::UpdateModes { session_id, .. } => assert_eq!(*session_id, 0xD4),
        other => panic!("unexpected effect {other:?}"),
    }
    assert_eq!(targets.len(), 1);
    assert_eq!(targets[0].refresh_millihz, 240_000);

    assert_eq!(d.table.get(0xD4).unwrap().target_modes.len(), 2);

    assert!(d.table.settle_modes(0xD4, seq, ModeUpdateResult::Applied, &targets).settled());
    let m = d.table.get(0xD4).unwrap();
    assert_eq!(m.target_modes.len(), 1);
    assert_eq!(m.modes.len(), 2, "the monitor description never moved");
    assert_eq!(m.preferred_mode().refresh_millihz, 120_000);

    let (reply, effects) = do_update(&mut d, &mut h, &update_req(0xD4, &[FG_240]));
    assert_eq!((reply.result, reply.mode_count), (err::OK, 1));
    assert!(effects.is_empty());
    assert!(reply.fully_in_force(), "in force, in full, right now");

    let (reply, effects) = do_update(&mut d, &mut h, &update_req(0xD4, &[BASE_120, FG_240]));
    assert_eq!(reply.mode_count, 2);
    let (seq, targets) = queued_update(&effects).expect("a real change, so a real push");
    assert!(d.table.settle_modes(0xD4, seq, ModeUpdateResult::Applied, &targets).settled());
    assert_eq!(d.table.get(0xD4).unwrap().target_modes.len(), 2);
}

#[test]
fn a_target_outside_the_superset_is_rejected_and_the_session_carries_on() {
    let mut d = dev();
    let mut h = HandleCtx::default();
    shake(&mut d, &mut h);
    do_create(&mut d, &mut h, &superset_req(0x5A));

    let (reply, effects) =
        do_update(&mut d, &mut h, &update_req(0x5A, &[FG_240, NEVER_CREATED]));
    assert_eq!(reply.result, err::OK, "partial success is success, not an error");
    assert!(reply.is_partial(), "and it must not read as a clean OK");
    assert_eq!((reply.accepted(), reply.requested(), reply.rejected()), (1, 2, 1));
    assert_eq!(reply.first_rejected(), 1, "WHICH entry, not just how many");
    assert_eq!(reply.mode_count, 1);
    assert!(!reply.fully_in_force());
    let (seq, targets) = queued_update(&effects).expect("what exists is still published");
    assert_eq!(targets, vec![Mode::validate(2560, 1440, 240_000, 8, 0, CAPS).unwrap()]);
    assert!(d.table.settle_modes(0x5A, seq, ModeUpdateResult::Applied, &targets).settled());
    let published = d.table.get(0x5A).unwrap().target_modes.clone();
    assert_eq!(published.len(), 1);

    let (reply, effects) = do_update(&mut d, &mut h, &update_req(0x5A, &[NEVER_CREATED]));
    assert_eq!(reply.result, err::BAD_MODE);
    assert_eq!((reply.accepted(), reply.requested(), reply.rejected()), (0, 1, 1));
    assert_eq!(reply.first_rejected(), 0, "index 0 is a real rejection, not 'none'");
    assert_eq!(reply.mode_count, 1, "what is still in force is reported");
    assert!(effects.is_empty(), "nothing may reach the OS");
    assert!(!reply.fully_in_force());

    let m = d.table.get(0x5A).unwrap();
    assert_eq!(m.target_modes, published, "target modes unchanged, carry on");
    assert!(!m.target_modes.is_empty(), "never left with no targets");
    assert_eq!(m.modes.len(), 2, "and the description is still the description");
    assert!(d.table.pending_targets(0x5A).is_none(), "nothing queued");
    let (reply, effects) = do_update(&mut d, &mut h, &update_req(0x5A, &[BASE_120]));
    assert_eq!(reply.result, err::OK);
    assert!(queued_update(&effects).is_some(), "the next request works normally");
}

#[test]
fn an_empty_target_list_is_refused() {
    let mut d = dev();
    let mut h = HandleCtx::default();
    shake(&mut d, &mut h);
    do_create(&mut d, &mut h, &superset_req(0x1E));

    let mut empty = update_req(0x1E, &[FG_240]);
    empty.mode_count = 0;
    let (reply, effects) = do_update(&mut d, &mut h, &empty);
    assert_eq!(reply.result, err::BAD_MODE);
    assert_eq!(reply.mode_count, 2, "the list still in force");
    assert!(effects.is_empty(), "an empty push must never reach the OS");
    assert_eq!(d.table.get(0x1E).unwrap().target_modes.len(), 2);
    assert!(d.table.pending_targets(0x1E).is_none());

    let zeroed = UpdateModesRequest {
        session_id: 0x1E,
        flags: 0,
        mode_count: 0,
        modes: [ModeSpec::default(); 4],
        reserved: [0; 4],
    };
    let (reply, effects) = do_update(&mut d, &mut h, &zeroed);
    assert_eq!(reply.result, err::BAD_MODE);
    assert!(effects.is_empty());
    assert_eq!(d.table.get(0x1E).unwrap().target_modes.len(), 2, "session fine");
}

#[test]
fn a_retry_after_a_failed_push_really_pushes_again() {
    let mut d = dev();
    let mut h = HandleCtx::default();
    shake(&mut d, &mut h);
    do_create(&mut d, &mut h, &superset_req(7));

    let (reply, effects) = do_update(&mut d, &mut h, &update_req(7, &[FG_240]));
    assert!(reply.is_pending());
    let (seq, targets) = queued_update(&effects).expect("first request queues a push");

    assert!(d.table.settle_modes(7, seq, ModeUpdateResult::NotApplied, &targets).settled());
    assert_eq!(
        d.table.get(7).unwrap().target_modes.len(),
        2,
        "the durable list must not claim a publish the OS refused"
    );
    assert_eq!(
        d.table.get(7).unwrap().last_error,
        err::UPDATE_FAILED,
        "and GET_STATUS says so"
    );

    let (reply, effects) = do_update(&mut d, &mut h, &update_req(7, &[FG_240]));
    assert_eq!(reply.result, err::OK);
    let (retry_seq, retry_targets) =
        queued_update(&effects).expect("an identical retry must re-push, not no-op");
    assert_ne!(retry_seq, seq, "a NEW push, not a replay of the settled one");
    assert_eq!(retry_targets.len(), 1);
    assert!(
        reply.is_pending(),
        "and it must NOT read as in force while the publish has not happened"
    );
    assert!(!reply.fully_in_force());
    assert_eq!(d.table.get(7).unwrap().target_modes.len(), 2, "still not in force");

    assert!(d
        .table
        .settle_modes(7, retry_seq, ModeUpdateResult::Applied, &retry_targets)
        .settled());
    assert_eq!(d.table.get(7).unwrap().target_modes.len(), 1);
    let (reply, effects) = do_update(&mut d, &mut h, &update_req(7, &[FG_240]));
    assert!(effects.is_empty());
    assert!(reply.fully_in_force());
}

#[test]
fn a_retry_after_a_deferred_push_really_pushes_again() {
    let mut d = dev();
    let mut h = HandleCtx::default();
    shake(&mut d, &mut h);
    do_create(&mut d, &mut h, &superset_req(8));
    let before = d.table.get(8).unwrap().target_modes.clone();

    let (reply, effects) = do_update(&mut d, &mut h, &update_req(8, &[FG_240]));
    assert!(reply.is_pending());
    let (seq, targets) = queued_update(&effects).expect("first request queues a push");

    assert!(d.table.settle_modes(8, seq, ModeUpdateResult::NotApplied, &targets).settled());
    assert_eq!(
        d.table.get(8).unwrap().target_modes,
        before,
        "target modes unchanged, carry on"
    );
    assert_eq!(d.table.get(8).unwrap().last_error, err::UPDATE_FAILED);

    let (reply, effects) = do_update(&mut d, &mut h, &update_req(8, &[FG_240]));
    let (retry_seq, retry_targets) =
        queued_update(&effects).expect("a retry after a deferral must re-push");
    assert_ne!(retry_seq, seq);
    assert!(reply.is_pending() && !reply.fully_in_force());
    assert!(d
        .table
        .settle_modes(8, retry_seq, ModeUpdateResult::Applied, &retry_targets)
        .settled());
    assert_eq!(d.table.get(8).unwrap().target_modes.len(), 1);
}

#[test]
fn a_retry_after_a_committed_mode_refusal_is_answered_not_re_pushed() {
    

    let mut d = dev();
    let mut h = HandleCtx::default();
    shake(&mut d, &mut h);
    do_create(&mut d, &mut h, &superset_req(0xC0));
    let superset = d.table.get(0xC0).unwrap().modes.clone();
    let committed = CommittedMode { width: 2560, height: 1440, refresh_millihz: 120_000 };

    let (reply, effects) = do_update(&mut d, &mut h, &update_req(0xC0, &[FG_240]));
    assert_eq!(reply.result, err::OK);
    assert!(reply.is_pending() && !reply.is_blocked());
    assert_eq!(reply.blocking_mode_idx(), NO_MODE_INDEX);
    let (seq, targets) = queued_update(&effects).expect("first request queues a push");

    let gate = live_gate(&superset, &targets, Some(committed));
    let LiveGate::EvictsCommitted { committed, superset_idx } = gate else {
        panic!("expected the committed-mode refusal, got {gate:?}");
    };
    let outcome = PushOutcome::Blocked {
        committed,
        superset_idx,
        token: committed_token(&d.committed),
        count: 1,
    };
    assert!(!outcome.retryable());
    assert!(d.table.settle_modes(0xC0, seq, outcome.settle_result(), &targets).settled());

    let m = d.table.get(0xC0).unwrap();
    assert_eq!(m.target_modes.len(), 2, "target modes unchanged, carry on");
    assert_eq!(m.last_error, err::MODE_COMMITTED);
    assert_ne!(err::MODE_COMMITTED, err::UPDATE_FAILED);

    let (reply, effects) = do_update(&mut d, &mut h, &update_req(0xC0, &[FG_240]));
    assert_eq!(reply.result, err::MODE_COMMITTED, "not OK: this cannot be applied");
    assert!(reply.is_blocked(), "and the flag says the refusal is permanent");
    assert!(!reply.worth_retrying(), "which is the predicate a retry loop reads");
    assert!(
        effects.is_empty(),
        "and it is NOT pushed again — the same gate would refuse it identically"
    );
    assert_eq!(reply.blocking_mode_idx(), 0);
    assert_eq!(superset_req(0xC0).modes[reply.blocking_mode_idx() as usize], BASE_120);
    assert_eq!(reply.mode_count, 2, "the list still in force is reported as always");
    assert!(!reply.is_pending(), "nothing is outstanding — this is the final answer");
    assert!(!reply.fully_in_force());
    assert_eq!(d.table.get(0xC0).unwrap().target_modes.len(), 2);

    let (reply, effects) = do_update(&mut d, &mut h, &update_req(0xC0, &[BASE_120]));
    assert_eq!(reply.result, err::OK);
    assert!(!reply.is_blocked() && reply.worth_retrying());
    let (seq, targets) = queued_update(&effects).expect("a different subset really pushes");
    assert_eq!(live_gate(&superset, &targets, Some(committed)), LiveGate::Push);
    assert!(d.table.settle_modes(0xC0, seq, ModeUpdateResult::Applied, &targets).settled());
    assert_eq!(d.table.get(0xC0).unwrap().target_modes.len(), 1);
}

#[test]
fn a_second_request_while_a_push_is_outstanding_supersedes_and_stays_pending() {
    let mut d = dev();
    let mut h = HandleCtx::default();
    shake(&mut d, &mut h);
    do_create(&mut d, &mut h, &superset_req(12));

    let (_, first) = do_update(&mut d, &mut h, &update_req(12, &[FG_240]));
    let (first_seq, first_targets) = queued_update(&first).unwrap();
    let (reply, second) = do_update(&mut d, &mut h, &update_req(12, &[BASE_120]));
    let (second_seq, second_targets) = queued_update(&second).unwrap();
    assert_eq!(second_targets.len(), 1);
    assert_eq!(second_targets[0].refresh_millihz, 120_000, "the newer intent wins");
    assert!(reply.is_pending());
    assert_eq!(d.table.pending_targets(12).unwrap().len(), 1);

    let outcome =
        d.table.settle_modes(12, first_seq, ModeUpdateResult::Applied, &first_targets);
    assert!(!outcome.settled(), "it decided nothing for the outstanding update");
    assert!(outcome.recorded(), "but it recorded what the OS took");
    assert_eq!(d.table.get(12).unwrap().target_modes, first_targets);
    assert_eq!(d.table.pending_targets(12).unwrap().len(), 1, "#2 still outstanding");

    assert!(d
        .table
        .settle_modes(12, second_seq, ModeUpdateResult::Applied, &second_targets)
        .settled());
    assert_eq!(d.table.get(12).unwrap().target_modes, second_targets);

    let (reply, effects) = do_update(&mut d, &mut h, &update_req(12, &[BASE_120]));
    assert!(effects.is_empty());
    assert!(reply.fully_in_force());
}

#[test]
fn a_rescind_after_a_superseded_success_still_reaches_the_os() {
    let mut d = dev();
    let mut h = HandleCtx::default();
    shake(&mut d, &mut h);
    do_create(&mut d, &mut h, &superset_req(0x11));
    assert_eq!(d.table.get(0x11).unwrap().target_modes.len(), 2, "both rates, initially");

    let (_, first) = do_update(&mut d, &mut h, &update_req(0x11, &[FG_240]));
    let (first_seq, first_targets) = queued_update(&first).expect("#1 queues a push");

    let (_, second) = do_update(&mut d, &mut h, &update_req(0x11, &[BASE_120]));
    let (second_seq, second_targets) = queued_update(&second).expect("#2 queues a push");

    d.table.settle_modes(0x11, first_seq, ModeUpdateResult::Applied, &first_targets);
    d.table.settle_modes(0x11, second_seq, ModeUpdateResult::NotApplied, &second_targets);
    assert_eq!(d.table.get(0x11).unwrap().last_error, err::UPDATE_FAILED);

    let (reply, effects) = do_update(&mut d, &mut h, &update_req(0x11, &[BASE_120, FG_240]));
    assert_eq!(reply.result, err::OK);
    assert_eq!(reply.mode_count, 2);
    let (_, rescind_targets) =
        queued_update(&effects).expect("the rescind must reach the OS, not short-circuit");
    assert_eq!(rescind_targets.len(), 2);
    assert!(reply.is_pending(), "it is queued, not in force");
    assert!(
        !reply.fully_in_force(),
        "and must never claim in-force for a list the OS is not holding"
    );
}

#[test]
fn update_modes_refusals_leave_the_session_alone() {
    let mut d = dev();
    let mut h = HandleCtx::default();
    shake(&mut d, &mut h);
    do_create(&mut d, &mut h, &superset_req(9));

    let mut un = HandleCtx::default();
    let (reply, effects) = do_update(&mut d, &mut un, &update_req(9, &[FG_240]));
    assert_eq!(reply.result, err::NOT_HANDSHAKEN);
    assert_eq!(reply.mode_count, 2, "the list in force is still reported");
    assert!(effects.is_empty());
    assert_eq!((reply.accepted(), reply.requested()), (0, 1));
    assert_eq!(reply.flags(), 0);
    assert!(!reply.fully_in_force(), "a refusal is never 'in force'");

    let (reply, effects) = do_update(&mut d, &mut h, &update_req(1234, &[FG_240]));
    assert_eq!((reply.result, reply.mode_count), (err::NO_SUCH_SESSION, 0));
    assert!(effects.is_empty());

    let mut too_many = update_req(9, &[FG_240]);
    too_many.mode_count = MAX_MODES_PER_MONITOR + 1;
    assert_eq!(do_update(&mut d, &mut h, &too_many).0.result, err::BAD_MODE);

    let bad = ModeSpec { width: 3, height: 3, refresh_millihz: 1 };
    let (reply, effects) = do_update(&mut d, &mut h, &update_req(9, &[bad]));
    assert_eq!((reply.result, reply.mode_count), (err::BAD_MODE, 2));
    assert!(effects.is_empty());

    let full = update_req(9, &[FG_240]).to_bytes();
    let mut out = vec![0u8; UPDATE_MODES_REPLY_SIZE];
    let r = dispatch(
        &mut d, &mut h, 0, ioctl::IOCTL_UPDATE_MODES,
        &full[..UPDATE_MODES_REQUEST_SIZE_V5 - 4], &mut out,
    );
    assert_eq!(r.status, Status::BadBuffer);
    let mut tiny = vec![0u8; 8];
    let r = dispatch(&mut d, &mut h, 0, ioctl::IOCTL_UPDATE_MODES, &full, &mut tiny);
    assert_eq!(r.status, Status::BadBuffer);
    assert!(r.effects.is_empty());
    assert!(
        d.table.pending_targets(9).is_none(),
        "short reply buffer changed nothing"
    );

    assert_eq!(d.table.get(9).unwrap().target_modes.len(), 2);
    assert_eq!(d.table.get(9).unwrap().modes.len(), 2);
}

#[test]
fn update_modes_accepts_the_v5_size_and_a_future_larger_request() {
    let mut d = dev();
    let mut h = HandleCtx::default();
    shake(&mut d, &mut h);
    do_create(&mut d, &mut h, &superset_req(11));
    let full = update_req(11, &[FG_240]).to_bytes();
    assert_eq!(full.len(), UPDATE_MODES_REQUEST_SIZE_V5);

    let mut out = vec![0u8; UPDATE_MODES_REPLY_SIZE];
    let r = dispatch(&mut d, &mut h, 0, ioctl::IOCTL_UPDATE_MODES, &full, &mut out);
    assert_eq!(r.status, Status::Success);
    assert_eq!(UpdateModesReply::from_bytes(&out).unwrap().result, err::OK);

    let mut d2 = dev();
    let mut h2 = HandleCtx::default();
    shake(&mut d2, &mut h2);
    do_create(&mut d2, &mut h2, &superset_req(11));
    let mut future = full.clone();
    future.extend_from_slice(&[0xAB; 32]);
    let mut out2 = vec![0u8; UPDATE_MODES_REPLY_SIZE];
    let r = dispatch(&mut d2, &mut h2, 0, ioctl::IOCTL_UPDATE_MODES, &future, &mut out2);
    assert_eq!(r.status, Status::Success);
    let reply = UpdateModesReply::from_bytes(&out2).unwrap();
    assert_eq!((reply.result, reply.mode_count), (err::OK, 1));

    let mut flagged = update_req(11, &[BASE_120]);
    flagged.flags = 0xDEAD_BEEF;
    assert_eq!(do_update(&mut d2, &mut h2, &flagged).0.result, err::OK);
}

#[test]
fn a_pre_05_host_is_completely_unaffected_by_the_new_opcode() {
    for announced in [3u16, 4u16] {
        let mut d = dev();
        let mut h = HandleCtx::default();
        let req = HandshakeRequest {
            host_proto_major: PROTO_VERSION_MAJOR,
            host_proto_minor: announced,
        };
        let mut out = vec![0u8; HANDSHAKE_REPLY_SIZE];
        let r = dispatch(&mut d, &mut h, 0, ioctl::IOCTL_HANDSHAKE, &req.to_bytes(), &mut out);
        assert_eq!(r.status, Status::Success);
        let reply = HandshakeReply::from_bytes(&out).unwrap();
        assert_eq!(reply.driver_proto_minor, PROTO_VERSION_MINOR);
        assert_eq!(reply.driver_proto_minor, 8);
        assert!(h.handshaken, "0.{announced} host still handshakes against 0.8");

        let (create, effects) = do_create(&mut d, &mut h, &create_req(3));
        assert_eq!(create.result, err::OK);
        assert!(matches!(effects[0], Effect::PlugMonitor { .. }));
    }
}

#[test]
fn an_unknown_opcode_can_never_look_like_an_update_modes_success() {
    let mut d = dev();
    let mut h = HandleCtx::default();
    shake(&mut d, &mut h);
    let mut out = vec![0u8; UPDATE_MODES_REPLY_SIZE];
    let r = dispatch(
        &mut d, &mut h, 0, ioctl::ctl_code(0x80A),
        &update_req(1, &[ModeSpec { width: 1920, height: 1080, refresh_millihz: 60_000 }]).to_bytes(),
        &mut out,
    );
    assert_eq!(r.status, Status::UnknownCode);
    assert_eq!(r.bytes_written, 0, "nothing written — no false success");
    assert!(r.effects.is_empty());
}

#[test]
fn handshake_advertises_dynamic_modes_when_the_driver_has_it() {
    let mut d = DeviceState::new(
        DriverConfig {
            caps: CAPS | caps::DYNAMIC_MODES,
            driver_build: 17,
            ..DriverConfig::default()
        },
        None,
    );
    let mut h = HandleCtx::default();
    let mut out = vec![0u8; HANDSHAKE_REPLY_SIZE];
    dispatch(
        &mut d, &mut h, 0, ioctl::IOCTL_HANDSHAKE,
        &HandshakeRequest {
            host_proto_major: PROTO_VERSION_MAJOR,
            host_proto_minor: PROTO_VERSION_MINOR_REQUIRED,
        }.to_bytes(),
        &mut out,
    );
    let reply = HandshakeReply::from_bytes(&out).unwrap();
    assert_ne!(reply.caps & caps::DYNAMIC_MODES, 0);
    assert_eq!(reply.driver_build, 17);
}

#[test]
fn unknown_code_rejected() {
    let mut d = dev();
    let mut h = HandleCtx::default();
    let r = dispatch(&mut d, &mut h, 0, ioctl::ctl_code(0x8FF), &[], &mut []);
    assert_eq!(r.status, Status::UnknownCode);
}

#[test]
fn tdr_duck_gate_defaults_to_device_duck_and_legacy_stays_selectable() {
    assert_eq!(DriverConfig::default().tdr_duck_mode, TDR_DUCK_DEVICE);
    assert_ne!(TDR_DUCK_DEVICE, TDR_DUCK_DISPLAY);
    assert_eq!(TDR_DUCK_DEVICE, 0);
    assert_eq!(TDR_DUCK_DISPLAY, 1);
}

#[test]
fn tdr_duck_gate_survives_device_state_construction() {
    for mode in [TDR_DUCK_DEVICE, TDR_DUCK_DISPLAY] {
        let dev = DeviceState::new(
            DriverConfig { tdr_duck_mode: mode, ..DriverConfig::default() },
            None,
        );
        assert_eq!(dev.tdr_duck_mode(), mode);
    }
    let dev = DeviceState::new(
        DriverConfig { tdr_duck_mode: TDR_DUCK_DISPLAY, ..DriverConfig::default() },
        Some(&[0u8; 8]),
    );
    assert_eq!(dev.tdr_duck_mode(), TDR_DUCK_DISPLAY);
}
