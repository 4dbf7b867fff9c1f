use luminal_vgd::adapter::{select_adapter, AdapterInfo};
use luminal_vgd::dispatch::{dispatch, DeviceState, DriverConfig, Effect, HandleCtx, Status};
use luminal_vgd::edid::{generate, DtdTiming, EdidParams};
use luminal_vgd::error::CoreError;
use luminal_vgd::identity::{
    container_guid_from_display_id, ephemeral_display_id, is_permanent_display_id,
    permanent_display_id, permanent_product_code, serial_from_display_id, temporary_product_code,
    ConnectorTable,
};
use luminal_vgd::idmap::IdMap;
use luminal_vgd::luminance::{hdr_luminance_codes, max_luminance_code, min_luminance_code};
use luminal_vgd::modepush::committed::{judge_read, SlotRead};
use luminal_vgd::modepush::protocol::{took_record, version_closed, version_open};
use luminal_vgd::modepush::{live_gate, CommittedMode, CommittedPaths, LiveGate, PushOutcome};
use luminal_vgd::modes::Mode;
use luminal_vgd::permanent::{permanent_session_id, reconcile};
use luminal_vgd::persist::{parse, serialize, PersistedState};
use luminal_vgd::proto::messages::{
    GET_STATUS_REPLY_SIZE, HANDSHAKE_REPLY_SIZE, UPDATE_MODES_REPLY_SIZE,
};
use luminal_vgd::proto::{
    caps, err, ioctl, BitDepth, CreateMonitorRequest, GetStatusReply, HandshakeReply,
    HandshakeRequest, ModeSpec, PermanentPoolConfig, UpdateModesReply, UpdateModesRequest,
    LEASE_TIMEOUT_DISABLED, LEASE_TIMEOUT_USE_DEFAULT,
};
use luminal_vgd::ring::{RingPolicy, Slot};
use luminal_vgd::session::{ModeUpdateResult, SessionTable};

const CAPS: u32 = caps::MULTI_MODE | caps::PERMANENT_POOL | caps::DYNAMIC_MODES | caps::HDR10;

fn gpus() -> Vec<AdapterInfo> {
    let gpu = |luid: u64, gib: u64, software: bool| AdapterInfo {
        luid,
        vram_bytes: gib << 30,
        name: "gpu".into(),
        software,
    };
    vec![gpu(7, 8, false), gpu(3, 8, false), gpu(1, 64, true), gpu(5, 4, false)]
}

fn rate(refresh_millihz: u32) -> Mode {
    Mode { width: 1920, height: 1080, refresh_millihz, bit_depth: BitDepth::Sdr8, hdr: false }
}

fn rate_spec(refresh_millihz: u32) -> ModeSpec {
    ModeSpec { width: 1920, height: 1080, refresh_millihz }
}

fn two_rates(session_id: u64) -> CreateMonitorRequest {
    CreateMonitorRequest {
        session_id,
        display_id: 0x5000 + session_id,
        adapter_luid: 0,
        lease_timeout_ms: LEASE_TIMEOUT_USE_DEFAULT,
        bit_depth: 8,
        hdr: 0,
        edid_serial: 0,
        flags: 0,
        mode_count: 2,
        modes: [rate_spec(60_000), rate_spec(120_000), rate_spec(0), rate_spec(0)],
        physical_width_mm: 0,
        physical_height_mm: 0,
        friendly_name: [0; 32],
        max_nits: 0,
        reserved0: 0,
    }
}

fn device() -> (DeviceState, HandleCtx) {
    let cfg = DriverConfig { caps: CAPS, driver_build: 1, ..DriverConfig::default() };
    let mut d = DeviceState::new(cfg, None);
    d.set_adapters(gpus());
    (d, HandleCtx { handshaken: true, authorized: true })
}

fn some_pool(count: u32) -> PermanentPoolConfig {
    PermanentPoolConfig {
        count,
        width: 1920,
        height: 1080,
        refresh_millihz: 60_000,
        bit_depth: 8,
        hdr: 0,
        physical_width_mm: 0,
        physical_height_mm: 0,
        name: [0; 32],
    }
}

#[test]
fn default_adapter_ignores_order_and_software() {
    let mut list = gpus();
    for _ in 0..4 {
        assert_eq!(select_adapter(&list, 0).unwrap(), 3, "largest, then smallest number");
        list.rotate_left(1);
    }
    assert_eq!(select_adapter(&list, 1), Err(CoreError::NoAdapter));
    assert_eq!(select_adapter(&[], 0), Err(CoreError::NoAdapter));
}

#[test]
fn every_error_has_its_own_code() {
    let all = [
        CoreError::MaxMonitors,
        CoreError::BadMode,
        CoreError::BadBitDepth,
        CoreError::HdrUnsupported,
        CoreError::NoAdapter,
        CoreError::DuplicateSession,
        CoreError::NoSuchSession,
        CoreError::IdentityInUse,
        CoreError::BadPool,
    ];
    for (i, a) in all.iter().enumerate() {
        assert!(a.code() < 0);
        for b in &all[..i] {
            assert_ne!(a.code(), b.code());
        }
    }
}

#[test]
fn luminance_codes_agree_with_the_logarithm() {
    let code = |nits: f64| (32.0 * (nits / 50.0).log2()).round().clamp(1.0, 255.0) as u8;
    let decoded = |code: u8| 50.0 * 2f64.powf(code as f64 / 32.0);
    let ratio = decoded(96) / decoded(138);
    for nits in 1u32..=20_000 {
        let c = hdr_luminance_codes(nits);
        assert_eq!(c.max, code(nits as f64), "{nits} nits");
        let peak = decoded(c.max);
        assert_eq!(c.max_fall, code(peak * ratio), "{nits} nits");
        let min = (255.0 * (100.0 * 0.05 / peak).sqrt()).round().clamp(0.0, 255.0) as u8;
        assert_eq!(c.min, min, "{nits} nits");
    }
    assert_eq!(max_luminance_code(u32::MAX), 255);
    assert_eq!(min_luminance_code(128), 20);
    assert_eq!(hdr_luminance_codes(800).max_fall, 86);
}

#[test]
fn edid_blocks_sum_to_zero_and_carry_the_identity() {
    let mode = rate(60_000);
    let name: Vec<u16> = "Panel".encode_utf16().collect();
    let e = generate(&EdidParams {
        mode: &mode,
        friendly_name: &name,
        serial: 0x0102_0304,
        product_code: 0x0506,
        physical_width_mm: 0,
        physical_height_mm: 0,
        max_nits: 0,
    });
    for block in e.bytes.chunks(128) {
        assert_eq!(block.iter().map(|&b| b as u32).sum::<u32>() % 256, 0);
    }
    assert_eq!(e.bytes[126], 1, "one extension");
    assert_eq!(e.bytes[10..16], [0x06, 0x05, 0x04, 0x03, 0x02, 0x01]);
    assert_eq!(e.dtd, DtdTiming::Exact);
}

#[test]
fn identity_ranges_do_not_meet() {
    for i in 0..4 {
        assert!(is_permanent_display_id(permanent_display_id(i)));
        assert_ne!(permanent_display_id(i), permanent_display_id(i + 1));
    }
    for s in [0u64, 1, u64::MAX, 0x7FFF_FFFF_FFFF_FFFF] {
        assert!(!is_permanent_display_id(ephemeral_display_id(s)));
    }
    assert_ne!(container_guid_from_display_id(1), container_guid_from_display_id(2));
    assert_ne!(permanent_product_code(0), temporary_product_code(0));
    assert_eq!(serial_from_display_id(0x1_0000_0001), serial_from_display_id(0x1_0000_0001));
}

#[test]
fn connectors_go_free_first_then_to_returning_then_by_age() {
    let mut t = ConnectorTable::new(2);
    assert_eq!(t.acquire(10, &[]), Some(0));
    assert_eq!(t.acquire(11, &[10]), Some(1), "a free connector goes first");
    assert_eq!(t.acquire(10, &[]), Some(0), "a returning identity keeps its own");
    assert_eq!(t.acquire(12, &[10, 11]), None, "all live");
    assert_eq!(t.acquire(12, &[10]), Some(1), "the idle one gives way");
    let mut back = ConnectorTable::new(2);
    back.restore(&t.reservations());
    assert_eq!(back.reservations(), t.reservations());
}

#[test]
fn pools_reach_what_is_desired() {
    let sorted = |mut v: Vec<u32>| {
        v.sort();
        v
    };
    let r = reconcile(&some_pool(2), 2, &some_pool(4));
    assert_eq!((r.destroy, sorted(r.create)), (vec![], vec![2, 3]));
    let r = reconcile(&some_pool(3), 3, &some_pool(3));
    assert!(r.destroy.is_empty() && r.create.is_empty(), "nothing to do");
    let r = reconcile(&some_pool(3), 3, &some_pool(1));
    assert_eq!((sorted(r.destroy), r.create), (vec![1, 2], vec![]));
    assert_ne!(permanent_session_id(0), permanent_session_id(1));
}

#[test]
fn stored_state_comes_back_and_damage_is_refused() {
    let state = PersistedState {
        reservations: vec![(1, 0), (u64::MAX, 7)],
        pool: Some(some_pool(2)),
    };
    let blob = serialize(&state);
    let back = parse(&blob).unwrap();
    assert_eq!(back.reservations, state.reservations);
    assert_eq!(back.pool, state.pool);
    for n in 0..blob.len() {
        assert!(parse(&blob[..n]).is_none(), "cut at {n}");
    }
    let mut foreign = blob.clone();
    foreign[0] ^= 1;
    assert!(parse(&foreign).is_none());
}

#[test]
fn id_maps_list_in_ascending_order() {
    let mut m: IdMap<u32> = IdMap::new();
    m.insert(5, 50);
    m.insert(1, 10);
    m.insert(3, 30);
    m.insert(5, 55);
    assert_eq!(m.values(), &[10, 30, 55]);
    assert_eq!(m.get(5), Some(&55));
    assert_eq!(m.get(2), None);
    assert_eq!(m.remove(3), Some(30));
    assert_eq!(m.remove(3), None);
    assert_eq!(m.len(), 2);
}

#[test]
fn ring_numbers_never_repeat_and_frames_are_accounted_for() {
    let mut r = RingPolicy::new(2);
    let mut last = 0;
    for round in 0..5 {
        let w = r.writer_acquire().unwrap();
        if round == 2 {
            r.writer_abort(w.index);
            continue;
        }
        let seq = r.publish(w.index);
        assert!(seq > last);
        last = seq;
        if round == 3 {
            r.rebuild();
        }
    }
    assert_eq!((r.frames_published, last), (4, 4));
    assert_eq!(r.frames_dropped, 2, "one overwritten, one given up");
    r.reconcile_shared(0, 3);
    assert_eq!(r.slot(0), Slot::Reading);
    let w = r.writer_acquire().unwrap();
    assert_eq!(w.index, 1, "the held slot is spared");
    assert!(r.writer_acquire().is_none());
}

#[test]
fn publishes_are_numbered_in_order() {
    let mut r = RingPolicy::new(3);
    let mut numbers = Vec::new();
    for round in 0..12 {
        let w = r.writer_acquire().unwrap();
        match round % 4 {
            1 => r.writer_abort(w.index),
            3 => {
                numbers.push(r.publish(w.index));
                r.rebuild();
            }
            _ => numbers.push(r.publish(w.index)),
        }
        assert_eq!(r.frames_published, numbers.len() as u64);
        if round % 3 == 0 {
            if let Some((i, _)) = r.reader_acquire_latest() {
                r.reader_release(i);
            }
        }
    }
    assert_eq!(numbers, (1..=9).collect::<Vec<u64>>());
}

#[test]
fn an_ended_identity_returns_the_same() {
    let mut t = SessionTable::new(4, 3);
    t.create(0, &two_rates(9), CAPS, &gpus(), 0).unwrap();
    t.create(0, &two_rates(1), CAPS, &gpus(), 0).unwrap();
    let first = t.destroy(1).unwrap();
    assert!(first.derived_serial);
    assert!(t.get(1).is_none());
    assert_eq!(t.reservations().len(), 2, "a stable identity keeps its connector");
    let mut again = two_rates(2);
    again.display_id = first.display_id;
    let back = t.create(5, &again, CAPS, &gpus(), 0).unwrap();
    assert_eq!(
        (back.display_id, back.connector_index, back.product_code, back.edid_serial),
        (first.display_id, first.connector_index, first.product_code, first.edid_serial)
    );
    let mut named = two_rates(3);
    named.edid_serial = 77;
    let m = t.create(5, &named, CAPS, &gpus(), 0).unwrap();
    assert_eq!((m.edid_serial, m.derived_serial), (77, false));
    assert_eq!(t.destroy(8).err(), Some(CoreError::NoSuchSession));
}

#[test]
fn reservations_can_be_put_back_beside_live_monitors() {
    let mut t = SessionTable::new(4, 3);
    t.create(0, &two_rates(1), CAPS, &gpus(), 0).unwrap();
    t.restore_reservations(&[(0x5001, 0), (0x9000, 2), (0x9001, 2), (0x9002, 9)]);
    assert_eq!(t.reservations(), vec![(0x5001, 0), (0x9000, 2)]);
}

#[test]
fn lease_and_watchdog_agree() {
    let mut t = SessionTable::new(4, 3);
    let mut q = two_rates(1);
    q.lease_timeout_ms = 5_000;
    t.create(0, &q, CAPS, &gpus(), 0).unwrap();
    q = two_rates(2);
    q.lease_timeout_ms = LEASE_TIMEOUT_DISABLED;
    t.create(0, &q, CAPS, &gpus(), 0).unwrap();
    t.ping(1_000, 1).unwrap();
    let (_, _, remaining) = t.query_lease(5_000, 1).unwrap();
    assert_eq!(remaining, 1_000);
    assert!(t.tick(6_000).is_empty());
    let gone = t.tick(6_001);
    assert_eq!(gone.len(), 1);
    assert_eq!(gone[0].session_id, 1);
    assert!(t.tick(u64::MAX).is_empty(), "a lease without a timeout never ends");
    assert_eq!(t.ping(0, 1), Err(CoreError::NoSuchSession));
}

#[test]
fn refused_creates_change_nothing() {
    let mut t = SessionTable::new(4, 3);
    t.create(0, &two_rates(1), CAPS, &gpus(), 0).unwrap();
    let before = t.reservations();
    assert_eq!(t.create(0, &two_rates(1), CAPS, &gpus(), 0).err(), Some(CoreError::DuplicateSession));
    let mut q = two_rates(2);
    q.display_id = 0x5001;
    assert_eq!(t.create(0, &q, CAPS, &gpus(), 0).err(), Some(CoreError::IdentityInUse));
    q = two_rates(2);
    q.bit_depth = 9;
    assert_eq!(t.create(0, &q, CAPS, &gpus(), 0).err(), Some(CoreError::BadBitDepth));
    q = two_rates(2);
    q.mode_count = 0;
    assert_eq!(t.create(0, &q, CAPS, &gpus(), 0).err(), Some(CoreError::BadMode));
    q = two_rates(2);
    q.hdr = 1;
    q.bit_depth = BitDepth::Hdr10.as_raw();
    let sdr_only = CAPS & !caps::HDR10;
    assert_eq!(t.create(0, &q, sdr_only, &gpus(), 0).err(), Some(CoreError::HdrUnsupported));
    assert_eq!(t.create(0, &two_rates(2), CAPS, &[], 0).err(), Some(CoreError::NoAdapter));
    assert_eq!((t.len(), t.reservations()), (1, before));
}

#[test]
fn updates_account_for_every_mode() {
    let mut t = SessionTable::new(4, 3);
    t.create(0, &two_rates(1), CAPS, &gpus(), 0).unwrap();
    let a = t.update_modes(1, &[rate_spec(120_000), rate_spec(90_000)], CAPS, 1).unwrap();
    assert_eq!((a.accepted, a.rejected, a.first_rejected), (1, 1, Some(1)));
    assert!(a.pending);
    let seq = a.queued.unwrap();
    assert!(t.settle_modes(1, seq, ModeUpdateResult::Applied, &[rate(120_000)]).settled());
    let a = t.update_modes(1, &[rate_spec(120_000)], CAPS, 1).unwrap();
    assert_eq!((a.rejected, a.pending, a.queued), (0, false, None));
    assert_eq!(t.get(1).unwrap().target_modes, vec![rate(120_000)], "in force, right now");
    let a = t.update_modes(1, &[rate_spec(90_000)], CAPS, 1).unwrap();
    assert!(a.refused && a.queued.is_none());
}

#[test]
fn reports_on_an_earlier_monitor_are_ignored() {
    let mut t = SessionTable::new(4, 3);
    t.create(0, &two_rates(1), CAPS, &gpus(), 0).unwrap();
    let seq = t.update_modes(1, &[rate_spec(120_000)], CAPS, 1).unwrap().queued.unwrap();
    t.destroy(1).unwrap();
    t.create(0, &two_rates(1), CAPS, &gpus(), 0).unwrap();
    let again = t.update_modes(1, &[rate_spec(120_000)], CAPS, 1).unwrap().queued.unwrap();
    assert_ne!(seq, again);
    assert!(!t.settle_modes(1, seq, ModeUpdateResult::NotApplied, &[rate(120_000)]).settled());
    assert!(t.pending_targets(1).is_some());
}

#[test]
fn nothing_happens_before_a_handshake() {
    let (mut d, _) = device();
    let mut h = HandleCtx::default();
    let mut out = vec![0u8; UPDATE_MODES_REPLY_SIZE];
    let q = UpdateModesRequest {
        session_id: 1,
        flags: 0,
        mode_count: 1,
        modes: [rate_spec(60_000); 4],
        reserved: [0; 4],
    };
    let r = dispatch(&mut d, &mut h, 0, ioctl::IOCTL_UPDATE_MODES, &q.to_bytes(), &mut out);
    assert_eq!(r.status, Status::Success);
    assert!(r.effects.is_empty());
    assert_eq!(UpdateModesReply::from_bytes(&out).unwrap().result, err::NOT_HANDSHAKEN);
    let mut out = vec![0u8; HANDSHAKE_REPLY_SIZE];
    let q = HandshakeRequest { host_proto_major: 99, host_proto_minor: 8 };
    let r = dispatch(&mut d, &mut h, 0, ioctl::IOCTL_HANDSHAKE, &q.to_bytes(), &mut out);
    assert_eq!(r.status, Status::Success);
    assert!(!h.handshaken, "told the version, but not let in");
    assert_eq!(HandshakeReply::from_bytes(&out).unwrap().driver_build, 1);
    let mut out = vec![0u8; GET_STATUS_REPLY_SIZE];
    let r = dispatch(&mut d, &mut h, 5, ioctl::IOCTL_GET_STATUS, &[], &mut out);
    assert_eq!(r.status, Status::Success, "diagnostics are free");
    assert_eq!(GetStatusReply::from_bytes(&out).unwrap().monitor_count, 0);
}

#[test]
fn short_buffers_and_unknown_codes_do_nothing() {
    let (mut d, mut h) = device();
    let mut out = [0xEEu8; 8];
    let r = dispatch(&mut d, &mut h, 0, ioctl::IOCTL_CREATE_MONITOR, &two_rates(1).to_bytes(), &mut out);
    assert_eq!((r.status, r.bytes_written), (Status::BadBuffer, 0));
    assert!(r.effects.is_empty());
    assert_eq!(out, [0xEE; 8]);
    let (mut d, mut h) = device();
    let r = dispatch(&mut d, &mut h, 0, ioctl::IOCTL_CREATE_MONITOR, &[0; 20], &mut out);
    assert_eq!(r.status, Status::BadBuffer);
    assert!(d.table.is_empty());
    let r = dispatch(&mut d, &mut h, 0, 0xDEAD, &[], &mut out);
    assert_eq!(r.status, Status::UnknownCode);
    assert_eq!(out, [0xEE; 8]);
}

#[test]
fn pool_survives_a_teardown() {
    let (mut d, mut h) = device();
    let mut out = [0u8; 4];
    let r = dispatch(&mut d, &mut h, 0, ioctl::IOCTL_SET_PERMANENT_POOL, &some_pool(2).to_bytes(), &mut out);
    assert_eq!(r.status, Status::Success);
    assert_eq!(d.table.len(), 2);
    d.device_teardown_reset();
    assert!(d.table.is_empty());
    let effects = d.startup(9);
    assert_eq!(d.table.len(), 2);
    let plugged: Vec<u64> = effects
        .iter()
        .filter_map(|e| match e {
            Effect::PlugMonitor { session_id, .. } => Some(*session_id),
            _ => None,
        })
        .collect();
    assert_eq!(plugged, vec![permanent_session_id(0), permanent_session_id(1)]);
    assert!(d.table.tick(u64::MAX).is_empty(), "members never expire");
}

#[test]
fn pool_survives_many_teardowns() {
    let (mut d, mut h) = device();
    let mut out = [0u8; 4];
    dispatch(&mut d, &mut h, 0, ioctl::IOCTL_SET_PERMANENT_POOL, &some_pool(3).to_bytes(), &mut out);
    for round in 0..5 {
        d.table.create(round, &two_rates(1), CAPS, &gpus(), 0).unwrap();
        d.device_teardown_reset();
        assert!(d.table.is_empty());
        let effects = d.startup(round);
        assert_eq!(effects.len(), 3);
        assert!(effects.iter().all(|e| matches!(e, Effect::PlugMonitor { .. })));
        assert_eq!(d.table.len(), 3);
        assert!(d.table.reservations().iter().any(|r| r.0 == 0x5001));
    }
}

#[test]
fn gates_hold_for_every_committed_mode() {
    let superset = [rate(60_000), rate(120_000)];
    let running = CommittedMode { width: 1920, height: 1080, refresh_millihz: 120_000 };
    assert_eq!(live_gate(&superset, &[rate(60_000), rate(120_000)], Some(running)), LiveGate::Push);
    assert_eq!(
        live_gate(&superset, &[rate(60_000)], Some(running)),
        LiveGate::EvictsCommitted { committed: running, superset_idx: 1 }
    );
    assert_eq!(live_gate(&superset, &[rate(60_000)], None), LiveGate::Push);
    assert_eq!(live_gate(&superset, &[rate(90_000)], Some(running)), LiveGate::NotInSuperset);
    let o = PushOutcome::Blocked { committed: running, superset_idx: 1, token: 4, count: 1 };
    assert!(!o.retryable() && !o.commits());
    assert_eq!(o.settle_result(), ModeUpdateResult::Blocked { superset_idx: 1, token: 4 });
}

#[test]
fn every_write_of_the_record_moves_its_token() {
    let mut p = CommittedPaths::new();
    let m = CommittedMode { width: 1, height: 2, refresh_millihz: 3 };
    let t0 = p.generation();
    assert_eq!(p.apply(&[(7, m), (8, m)], 2), 2);
    let t1 = p.generation();
    assert!(t1 > t0);
    p.forget(7);
    assert!(p.generation() > t1);
    assert_eq!(p.get(7), None);
    assert_eq!(p.get(8), Some(m), "the other is spared");
    assert_eq!(p.apply(&[], 0), 0);
    assert_eq!(p.get(8), None, "a commit replaces the record");
    let n = CommittedMode { refresh_millihz: 9, ..m };
    p.apply(&[(8, m), (8, n)], 2);
    assert_eq!(p.get(8), Some(m), "the first of two counts");
}

#[test]
fn a_read_across_a_write_is_not_believed() {
    assert_eq!((version_open(4), version_closed(4)), (5, 6));
    assert_eq!((version_open(u32::MAX - 1), version_closed(u32::MAX - 1)), (u32::MAX, 0));
    assert!(matches!(judge_read(4, 9, 1, 60, 4), SlotRead::Found(9, _)));
    assert!(matches!(judge_read(5, 9, 1, 60, 5), SlotRead::Retry));
    assert!(matches!(judge_read(4, 9, 1, 60, 6), SlotRead::Retry));
    assert!(matches!(judge_read(4, 0, 1, 60, 4), SlotRead::Empty));
    assert!(took_record(0));
    assert!(!took_record(1));
}
