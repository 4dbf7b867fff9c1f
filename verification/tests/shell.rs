use luminal_vgd::adapter::AdapterInfo;
use luminal_vgd::dispatch::{DeviceState, DriverConfig, Effect};
use luminal_vgd::modepush::{stage, CommittedMode, PushOutcome};
use luminal_vgd::modes::Mode;
use luminal_vgd::proto::messages::{CREATE_MONITOR_REPLY_SIZE, HANDSHAKE_REPLY_SIZE};
use luminal_vgd::proto::{
    caps, err, ioctl, BitDepth, CreateMonitorReply, CreateMonitorRequest, HandshakeRequest,
    ModeSpec, LEASE_TIMEOUT_USE_DEFAULT, PROTO_VERSION_MAJOR, PROTO_VERSION_MINOR,
};
use luminal_vgd::session::ModeUpdateResult;
use luminal_vgd::shell::monitors::{LiveMonitor, MonitorSpec, PushCall, PushStep, Unplug};
use luminal_vgd::shell::report::CommitPath;
use luminal_vgd::shell::{
    char_fold, control_ref, driver_build, duck_all, duck_sessions, is_control_name, parse_build,
    requires_adapter, stored_blob, wide, Admission, DrainWait, Shell, SHELL_CAPS,
    STATUS_ACCESS_DENIED, STATUS_INVALID_DEVICE_REQUEST, STATUS_INVALID_PARAMETER, STATUS_SUCCESS,
};

const FILE: u64 = 0xF11E;
const ADAPTER: u64 = 0xADA;
const BASE: u32 = 120_000;
const DOUBLED: u32 = 240_000;

fn units(s: &str) -> Vec<u16> {
    s.encode_utf16().collect()
}

fn gpu() -> Vec<AdapterInfo> {
    vec![AdapterInfo { luid: 0x20, vram_bytes: 16 << 30, name: "gpu".into(), software: false }]
}

fn shell() -> Shell {
    let cfg = DriverConfig {
        caps: SHELL_CAPS | caps::DYNAMIC_MODES,
        driver_build: 14,
        ..DriverConfig::default()
    };
    Shell::init(DeviceState::new(cfg, None), 1_000)
}

fn ready_shell() -> Shell {
    let mut s = shell();
    s.set_wdf_device(0xDE);
    assert!(s.begin_start(0xDE));
    s.start_result(0xDE, true, ADAPTER);
    let epoch = s.init_finished(0, ADAPTER).unwrap();
    assert!(s.adapter_ready(ADAPTER, epoch, gpu(), 0).unwrap().is_empty());
    s
}

fn open(s: &mut Shell) {
    assert_eq!(s.file_opened(FILE, &units("\\LuminalVGDControl"), true), STATUS_SUCCESS);
    let req = HandshakeRequest {
        host_proto_major: PROTO_VERSION_MAJOR,
        host_proto_minor: PROTO_VERSION_MINOR,
    };
    let mut out = vec![0u8; HANDSHAKE_REPLY_SIZE];
    let c = s.control(FILE, 0, ioctl::IOCTL_HANDSHAKE, &req.to_bytes(), &mut out);
    assert_eq!((c.status, c.info), (STATUS_SUCCESS, HANDSHAKE_REPLY_SIZE));
}

fn request(session_id: u64) -> CreateMonitorRequest {
    let mut modes = [ModeSpec { width: 0, height: 0, refresh_millihz: 0 }; 4];
    modes[0] = ModeSpec { width: 2560, height: 1440, refresh_millihz: BASE };
    modes[1] = ModeSpec { width: 2560, height: 1440, refresh_millihz: DOUBLED };
    CreateMonitorRequest {
        session_id,
        display_id: 0x100 + session_id,
        adapter_luid: 0,
        lease_timeout_ms: LEASE_TIMEOUT_USE_DEFAULT,
        bit_depth: 8,
        hdr: 0,
        edid_serial: 0,
        flags: 0,
        mode_count: 2,
        modes,
        physical_width_mm: 0,
        physical_height_mm: 0,
        friendly_name: [0; 32],
        max_nits: 0,
        reserved0: 0,
    }
}

fn plug(s: &mut Shell, session_id: u64, handle: u64) {
    let mut out = vec![0u8; CREATE_MONITOR_REPLY_SIZE];
    let bytes = request(session_id).to_bytes();
    let c = s.control(FILE, 0, ioctl::IOCTL_CREATE_MONITOR, &bytes, &mut out);
    assert_eq!(c.status, STATUS_SUCCESS);
    assert_eq!(CreateMonitorReply::from_bytes(&out).unwrap().result, err::OK);
    for e in c.effects {
        if let Effect::PlugMonitor {
            session_id,
            display_id,
            connector_index,
            modes,
            targets,
            adapter_luid,
            edid,
            ..
        } = e
        {
            let (adapter, stale) = s.begin_plug(session_id).unwrap();
            assert_eq!(adapter, ADAPTER);
            assert!(stale.is_none());
            let spec = MonitorSpec::new(
                session_id,
                display_id,
                connector_index,
                adapter_luid,
                edid,
                modes,
                targets,
            )
            .unwrap();
            assert!(s.attach(LiveMonitor { handle, spec }).is_none());
        }
    }
    assert!(s.monitors.get(session_id).is_some());
}

fn mode(refresh_millihz: u32) -> Mode {
    Mode { width: 2560, height: 1440, refresh_millihz, bit_depth: BitDepth::Sdr8, hdr: false }
}

fn commit(handle: u64, refresh: u32) -> CommitPath {
    CommitPath {
        active: true,
        monitor: handle,
        width: 2560,
        height: 1440,
        vsync_numerator: refresh,
        vsync_denominator: 1000,
    }
}

fn begin(s: &mut Shell, session_id: u64, targets: &[Mode]) -> (PushCall, u64) {
    match s.begin_push(session_id, targets) {
        (PushStep::Call(call), epoch) => (call, epoch),
        (PushStep::Done(o), _) => panic!("unexpected {o:?}"),
    }
}

fn done(s: &mut Shell, session_id: u64, targets: &[Mode]) -> PushOutcome {
    match s.begin_push(session_id, targets) {
        (PushStep::Done(o), _) => o,
        (PushStep::Call(_), _) => panic!("unexpected call"),
    }
}

#[test]
fn control_names_are_matched_without_case() {
    assert!(is_control_name(&units("LuminalVGDControl")));
    assert!(is_control_name(&units("\\luminalvgdCONTROL")));
    assert!(!is_control_name(&units("\\\\LuminalVGDControl")));
    assert!(!is_control_name(&units("LuminalVGDControl2")));
    assert!(!is_control_name(&units("LuminalVGDContro")));
    assert!(!is_control_name(&[]));
    assert_eq!(control_ref(), units("LuminalVGDControl"));
    assert_eq!((char_fold(0x61), char_fold(0x7A), char_fold(0x7B)), (0x41, 0x5A, 0x7B));
    assert_eq!(char_fold(0xE9), 0xE9, "only ASCII letters fold");
}

#[test]
fn build_stamps_are_decimal() {
    assert_eq!(driver_build(None), Some(14));
    assert_eq!(driver_build(Some(b"42")), Some(42));
    assert_eq!(parse_build(b""), Some(0));
    assert_eq!(parse_build(b"4294967295"), Some(u32::MAX));
    assert_eq!(parse_build(b"4294967296"), None);
    assert_eq!(parse_build(b"99999999999999999999999"), None);
    assert_eq!(parse_build(b"1a"), None);
    assert_eq!(SHELL_CAPS, 1 | 4 | 32 | 64 | 128 | 256);
}

#[test]
fn wide_text_is_cut_or_padded() {
    assert_eq!(wide::<4>(b"ab"), [0x61, 0x62, 0, 0]);
    assert_eq!(wide::<1>(b"ab"), [0x61]);
}

#[test]
fn stored_blobs_are_taken_only_if_whole() {
    assert_eq!(stored_blob(true, true, 2, vec![1, 2, 3]), Some(vec![1, 2]));
    assert_eq!(stored_blob(true, true, 9, vec![1, 2, 3]), Some(vec![1, 2, 3]));
    assert_eq!(stored_blob(false, true, 2, vec![1]), None);
    assert_eq!(stored_blob(true, false, 2, vec![1]), None);
    assert_eq!(stored_blob(true, true, 0, vec![1]), None);
}

#[test]
fn unauthorized_handles_are_denied() {
    let mut s = ready_shell();
    assert_eq!(s.admission_of(FILE, ioctl::IOCTL_GET_STATUS), Admission::Denied, "never opened");
    assert_eq!(s.file_opened(FILE, &units("LuminalVGDControl"), false), STATUS_ACCESS_DENIED);
    assert_eq!(s.admission_of(FILE, ioctl::IOCTL_GET_STATUS), Admission::Denied);
    assert_eq!(s.file_opened(FILE, &units("something"), true), STATUS_SUCCESS);
    assert_eq!(s.admission_of(FILE, ioctl::IOCTL_GET_STATUS), Admission::Denied);
    assert_eq!(s.file_opened(FILE, &units("LuminalVGDControl"), true), STATUS_SUCCESS);
    assert_eq!(s.admission_of(FILE, ioctl::IOCTL_GET_STATUS), Admission::Go);
    s.file_closed(FILE);
    assert_eq!(s.admission_of(FILE, ioctl::IOCTL_GET_STATUS), Admission::Denied);
}

#[test]
fn monitor_requests_wait_for_the_adapter() {
    for code in
        [ioctl::IOCTL_CREATE_MONITOR, ioctl::IOCTL_DESTROY_MONITOR, ioctl::IOCTL_SET_PERMANENT_POOL]
    {
        assert!(requires_adapter(code));
    }
    assert!(!requires_adapter(ioctl::IOCTL_HANDSHAKE));
    assert!(!requires_adapter(ioctl::IOCTL_UPDATE_MODES));
    let mut s = shell();
    assert_eq!(s.file_opened(FILE, &units("LuminalVGDControl"), true), STATUS_SUCCESS);
    assert_eq!(s.admission_of(FILE, ioctl::IOCTL_CREATE_MONITOR), Admission::NotReady);
    assert_eq!(s.admission_of(FILE, ioctl::IOCTL_HANDSHAKE), Admission::Go);
    assert!(s.begin_plug(1).is_none());
}

#[test]
fn completions_carry_the_status() {
    let mut s = ready_shell();
    open(&mut s);
    let mut out = [0u8; 4];
    let c = s.control(FILE, 0, 0x1234, &[], &mut out);
    assert_eq!((c.status, c.info), (STATUS_INVALID_DEVICE_REQUEST, 0));
    let c = s.control(FILE, 0, ioctl::IOCTL_HANDSHAKE, &[], &mut out);
    assert_eq!((c.status, c.info), (STATUS_INVALID_PARAMETER, 0));
}

#[test]
fn a_stale_adapter_is_never_published() {
    let mut s = shell();
    s.set_wdf_device(0xDE);
    assert_eq!(s.wdf_device(), Some(0xDE));
    assert!(s.begin_start(0xDE));
    assert!(!s.begin_start(0xDE), "once per device");
    assert_eq!(s.init_finished(0, ADAPTER), Some(0), "the adapter may report before its start returns");
    s.start_result(0xDE, true, ADAPTER);
    assert_eq!(s.init_finished(0, 0xBAD), None);
    assert_eq!(s.init_finished(-1, ADAPTER), None);
    let epoch = s.init_finished(0, ADAPTER).unwrap();
    let (attached, parked) = s.final_exit(0xDE);
    assert!(attached.is_empty() && parked.is_empty());
    assert_eq!(s.wdf_device(), None);
    assert!(s.adapter_ready(ADAPTER, epoch, gpu(), 0).is_none());
    assert!(!s.set_adapter_if_epoch(ADAPTER, epoch));
    assert!(!s.ready());
    assert_eq!(s.adapter_epoch(), 1);
    assert!(s.begin_start(0xDE), "and again after a final exit");
    s.start_result(0xDE, false, 0);
    assert!(s.begin_start(0xDE), "and after a failure");
}

#[test]
fn the_clock_starts_with_the_shell() {
    let s = shell();
    assert_eq!(s.now_ms(1_000), 0);
    assert_eq!(s.now_ms(3_500), 2_500);
    assert_eq!(s.now_ms(10), 0);
    let slot = Some(s);
    assert_eq!(Shell::get(&slot).now_ms(1_001), 1);
    assert!(Shell::try_get(&slot).is_some());
    assert!(Shell::try_get(&None).is_none());
}

#[test]
fn the_watchdog_sleeps_without_an_adapter() {
    let mut s = ready_shell();
    open(&mut s);
    plug(&mut s, 1, 0x51);
    s.clear_adapter();
    assert!(s.watchdog(u64::MAX).is_empty());
    assert_eq!(s.dev.table.len(), 1);
    assert!(s.set_adapter_if_epoch(ADAPTER, 1));
    let effects = s.watchdog(10_000_000);
    assert!(matches!(effects[0], Effect::UnplugMonitor { session_id: 1 }));
    assert!(s.dev.table.is_empty());
}

#[test]
fn recovery_brings_monitors_back() {
    let mut s = ready_shell();
    open(&mut s);
    plug(&mut s, 2, 0x52);
    plug(&mut s, 1, 0x51);
    assert!(s.begin_recovery());
    assert!(!s.begin_recovery(), "one at a time");
    let epoch = s.adapter_epoch();
    let taken = duck_all(&mut s);
    assert_eq!(taken.iter().map(|m| m.spec.session_id).collect::<Vec<_>>(), vec![1, 2]);
    assert_eq!(s.commit_modes(&[commit(0x51, BASE)]), 1);
    let mut parked = 0;
    for m in taken {
        let ok = m.spec.session_id == 1;
        s.departed(m, ok);
        parked += usize::from(ok);
    }
    assert_eq!(s.dev.committed.get(0x51), None, "a departed monitor runs nothing");
    assert!(s.monitors.get(2).is_some(), "it would not leave");
    let (count, stale) = s.finish_duck(epoch, parked);
    assert_eq!((count, stale.len()), (1, 0));
    let (back, adapter) = s.begin_replug();
    assert_eq!(adapter, Some(ADAPTER));
    assert_eq!(back.len(), 1);
    assert_eq!(back[0].session_id, 1);
    assert_eq!(back[0].target_modes, vec![mode(BASE), mode(DOUBLED)]);
    for spec in back {
        assert!(s.attach(LiveMonitor { handle: 0x61, spec }).is_none());
    }
    s.end_recovery();
    assert_eq!(s.dev.table.len(), 2, "no session noticed");
    assert_eq!(s.monitors.by_handle(0x61).unwrap().spec.session_id, 1);
}

#[test]
fn recoveries_are_bounded_under_one_adapter() {
    let mut s = ready_shell();
    assert!(s.count_duck_cycle(2));
    assert!(s.count_duck_cycle(2));
    assert!(!s.count_duck_cycle(2));
    assert_eq!(s.duck_cycles, 2, "a refused one is not counted");
    s.clear_adapter();
    assert!(s.count_duck_cycle(2), "another adapter starts over");
}

#[test]
fn parked_monitors_can_be_given_up() {
    let mut s = ready_shell();
    open(&mut s);
    plug(&mut s, 1, 0x51);
    for m in duck_all(&mut s) {
        s.departed(m, true);
    }
    let gone = s.give_up_parked();
    assert_eq!(gone[0].session_id, 1);
    assert_eq!((s.monitors.parked_count(), s.dev.table.len()), (0, 1));
}

#[test]
fn a_teardown_during_recovery_gives_the_parked_up() {
    let mut s = ready_shell();
    open(&mut s);
    plug(&mut s, 1, 0x51);
    plug(&mut s, 2, 0x52);
    let epoch = s.adapter_epoch();
    let taken = duck_sessions(&mut s, &[2, 9, 2]);
    assert_eq!(taken.len(), 1);
    for m in taken {
        s.departed(m, true);
    }
    s.clear_adapter();
    let (count, stale) = s.finish_duck(epoch, 1);
    assert_eq!(count, 0);
    assert_eq!(stale[0].session_id, 2);
    assert_eq!(s.monitors.parked_count(), 0);
    assert_eq!(s.monitors.live_count(), 1);
}

#[test]
fn pushes_are_made_finished_and_rolled_back() {
    let mut s = ready_shell();
    open(&mut s);
    plug(&mut s, 1, 0x51);
    let doubled = [mode(DOUBLED)];
    let (call, epoch) = begin(&mut s, 1, &doubled);
    assert_eq!((call.handle, call.superset, call.unrecognised), (0x51, 2, None));
    assert_eq!(s.drain_wait(0), DrainWait::Sleep);
    assert_eq!(s.drain_wait(500), DrainWait::GiveUp);
    assert!(s.push_current(epoch));
    let o = s.finish_push(1, call, &doubled, Some(0));
    assert_eq!(o, PushOutcome::Applied { published: 1, superset: 2 });
    assert_eq!(s.drain_wait(500), DrainWait::Done);
    assert_eq!(s.monitors.get(1).unwrap().spec.target_modes, doubled);

    let base = [mode(BASE)];
    let (call, _) = begin(&mut s, 1, &base);
    let o = s.finish_push(1, call, &base, Some(-5));
    assert_eq!(
        o,
        PushOutcome::Failed { stage: stage::OS_CALL, code: -5, count: 1, rolled_back: true }
    );
    assert_eq!(s.monitors.get(1).unwrap().spec.target_modes, doubled);

    let (call, epoch) = begin(&mut s, 1, &base);
    s.clear_adapter();
    assert!(!s.push_current(epoch));
    let o = s.finish_push(1, call, &base, None);
    assert_eq!(o, PushOutcome::Deferred { stage: stage::ADAPTER_TORN_DOWN, count: 1 });
    assert_eq!(s.monitors.get(1).unwrap().spec.target_modes, doubled);
}

#[test]
fn a_raced_rollback_is_reported() {
    let mut s = ready_shell();
    open(&mut s);
    plug(&mut s, 1, 0x51);
    let base = [mode(BASE)];
    let (call, _) = begin(&mut s, 1, &base);
    assert!(matches!(s.unplug(1), Unplug::Live(m) if m.handle == 0x51));
    let o = s.finish_push(1, call, &base, Some(-5));
    assert_eq!(
        o,
        PushOutcome::Failed { stage: stage::ROLLBACK_RACED, code: -5, count: 1, rolled_back: false }
    );
    assert!(matches!(s.unplug(1), Unplug::Absent));
}

#[test]
fn pushes_that_are_not_made() {
    let mut s = ready_shell();
    open(&mut s);
    plug(&mut s, 1, 0x51);
    let base = [mode(BASE)];
    assert_eq!(
        done(&mut s, 1, &[]),
        PushOutcome::Failed { stage: stage::EMPTY, code: err::BAD_MODE, count: 0, rolled_back: false }
    );
    assert_eq!(
        done(&mut s, 9, &base),
        PushOutcome::Failed {
            stage: stage::NO_MONITOR,
            code: err::NO_SUCH_SESSION,
            count: 1,
            rolled_back: false
        }
    );
    assert_eq!(
        done(&mut s, 1, &[mode(60_000)]),
        PushOutcome::Failed {
            stage: stage::NOT_IN_SUPERSET,
            code: err::BAD_MODE,
            count: 1,
            rolled_back: false
        }
    );
    assert_eq!(s.commit_modes(&[commit(0x51, DOUBLED)]), 1);
    match done(&mut s, 1, &base) {
        PushOutcome::Blocked { committed, superset_idx, token, count } => {
            assert_eq!(
                committed,
                CommittedMode { width: 2560, height: 1440, refresh_millihz: DOUBLED }
            );
            assert_eq!((superset_idx, count), (1, 1));
            assert_eq!(token, s.dev.committed.generation());
        }
        other => panic!("unexpected {other:?}"),
    }
    assert!(s.begin_recovery());
    assert_eq!(
        done(&mut s, 1, &base),
        PushOutcome::Deferred { stage: stage::DUCK_PENDING, count: 1 }
    );
    s.end_recovery();
    s.clear_adapter();
    assert_eq!(
        done(&mut s, 1, &base),
        PushOutcome::Deferred { stage: stage::NO_ADAPTER, count: 1 }
    );
    assert_eq!(s.monitors.get(1).unwrap().spec.target_modes.len(), 2, "nothing changed");
}

#[test]
fn a_push_at_a_parked_monitor_survives_its_return() {
    let mut s = ready_shell();
    open(&mut s);
    plug(&mut s, 1, 0x51);
    for m in duck_all(&mut s) {
        s.departed(m, true);
    }
    let base = [mode(BASE)];
    assert_eq!(done(&mut s, 1, &base), PushOutcome::AppliedParked { published: 1, superset: 2 });
    let (back, _) = s.begin_replug();
    assert_eq!(back[0].target_modes, base);
    for spec in back {
        assert!(s.attach(LiveMonitor { handle: 0x61, spec }).is_none());
    }
    assert!(s.attach_failed(1, true).is_some());
    assert!(s.attach_failed(1, false).is_none());
}

#[test]
fn a_parked_monitor_is_unplugged_or_replaced_quietly() {
    let mut s = ready_shell();
    open(&mut s);
    plug(&mut s, 1, 0x51);
    plug(&mut s, 2, 0x52);
    for m in duck_all(&mut s) {
        s.departed(m, true);
    }
    assert!(matches!(s.unplug(1), Unplug::Parked(m) if m.session_id == 1));
    let (_, stale) = s.begin_plug(2).unwrap();
    assert_eq!(stale.unwrap().session_id, 2);
    assert_eq!(s.monitors.parked_count(), 0);
}

#[test]
fn a_displaced_monitor_is_handed_back() {
    let mut s = ready_shell();
    open(&mut s);
    plug(&mut s, 1, 0x51);
    assert_eq!(s.commit_modes(&[commit(0x51, BASE)]), 1);
    let old = s.monitors.remove(1).unwrap();
    let again = MonitorSpec::new(
        1,
        old.spec.display_id,
        0,
        0x20,
        old.spec.edid.clone(),
        old.spec.monitor_modes.clone(),
        old.spec.target_modes.clone(),
    )
    .unwrap();
    assert!(s.attach(old).is_none());
    let displaced = s.attach(LiveMonitor { handle: 0x99, spec: again }).unwrap();
    assert_eq!(displaced.handle, 0x51);
    assert_eq!(s.dev.committed.get(0x51), None);
}

#[test]
fn monitors_must_publish_what_they_describe() {
    let edid = Box::new([0u8; 256]);
    assert!(MonitorSpec::new(1, 1, 0, 0, edid.clone(), vec![mode(BASE)], vec![]).is_none());
    assert!(
        MonitorSpec::new(1, 1, 0, 0, edid.clone(), vec![mode(BASE)], vec![mode(DOUBLED)]).is_none()
    );
    assert!(MonitorSpec::new(1, 1, 0, 0, edid, vec![mode(BASE)], vec![mode(BASE)]).is_some());
}

#[test]
fn a_final_exit_ends_everything_but_the_pool() {
    let mut s = ready_shell();
    open(&mut s);
    plug(&mut s, 1, 0x51);
    plug(&mut s, 2, 0x52);
    assert_eq!(s.commit_modes(&[commit(0x51, BASE)]), 1);
    let token = s.dev.committed.generation();
    let (ended, parked) = s.final_exit(0xDE);
    assert!(parked.is_empty());
    assert_eq!(ended.iter().map(|m| m.handle).collect::<Vec<_>>(), vec![0x51, 0x52]);
    assert!(!s.ready());
    assert!(s.dev.table.is_empty());
    assert_eq!(s.dev.committed.get(0x51), None);
    assert_eq!(s.dev.committed.active(), 0);
    assert!(s.dev.committed.generation() != token);
    assert!(s.begin_start(0xDE));
}

#[test]
fn a_final_exit_leaves_no_parked_monitor() {
    let mut s = ready_shell();
    open(&mut s);
    plug(&mut s, 1, 0x51);
    plug(&mut s, 2, 0x52);
    let epoch = s.adapter_epoch();
    let mut taken = duck_all(&mut s);
    let late = taken.pop().unwrap();
    for m in taken {
        s.departed(m, true);
    }
    let (attached, parked) = s.final_exit(0xDE);
    assert!(attached.is_empty());
    assert_eq!(parked.iter().map(|m| m.session_id).collect::<Vec<_>>(), vec![1]);
    assert_eq!(s.monitors.parked_count(), 0);
    s.departed(late, true);
    let (count, stale) = s.finish_duck(epoch, 2);
    assert_eq!((count, stale[0].session_id), (0, 2), "parked after the teardown");
    let (back, adapter) = s.begin_replug();
    assert!(back.is_empty() && adapter.is_none());
}

#[test]
fn a_rollback_asks_only_for_the_monitor_and_the_list() {
    let mut s = ready_shell();
    open(&mut s);
    plug(&mut s, 1, 0x51);
    let (base, doubled) = ([mode(BASE)], [mode(DOUBLED)]);
    let (first, _) = begin(&mut s, 1, &base);
    let (second, _) = begin(&mut s, 1, &doubled);
    assert!(s.monitors.describes(1, &first) && s.monitors.describes(1, &second));
    assert!(matches!(
        s.finish_push(1, first, &base, Some(-5)),
        PushOutcome::Failed { rolled_back: false, .. }
    ));
    assert!(matches!(
        s.finish_push(1, second, &doubled, Some(-5)),
        PushOutcome::Failed { rolled_back: true, .. }
    ));
    assert_eq!(s.monitors.get(1).unwrap().spec.target_modes, base, "the later push undone");
}

#[test]
fn the_committed_record_can_be_read_from_beside() {
    let mut s = ready_shell();
    open(&mut s);
    plug(&mut s, 1, 0x51);
    let running = CommittedMode { width: 2560, height: 1440, refresh_millihz: DOUBLED };
    let mut slots = [None; 16];
    slots[3] = Some((0x51, running));
    slots[4] = Some((0, running));
    s.adopt_committed(&slots, 2, 77);
    assert_eq!(s.dev.committed.get(0x51), Some(running));
    assert_eq!((s.dev.committed.active(), s.dev.committed.generation()), (2, 77));
    match done(&mut s, 1, &[mode(BASE)]) {
        PushOutcome::Blocked { superset_idx: 1, token: 77, .. } => {}
        other => panic!("unexpected {other:?}"),
    }
    s.adopt_committed(&[None; 16], 0, 78);
    assert_eq!(s.dev.committed.get(0x51), None);
}

#[test]
fn an_update_is_settled_with_what_the_push_came_to() {
    let mut s = ready_shell();
    open(&mut s);
    plug(&mut s, 1, 0x51);
    let base = [mode(BASE)];
    let spec = ModeSpec { width: 2560, height: 1440, refresh_millihz: BASE };
    let token = s.dev.committed.generation();
    let answer = s.dev.table.update_modes(1, &[spec], SHELL_CAPS, token).unwrap();
    let seq = answer.queued.unwrap();
    assert_eq!(s.dev.table.pending_targets(1), Some(&base[..]));
    let (call, _) = begin(&mut s, 1, &base);
    let o = s.finish_push(1, call, &base, Some(0));
    assert_eq!(o.settle_result(), ModeUpdateResult::Applied);
    assert!(s.settle(1, seq, o, &base).settled());
    assert_eq!(s.dev.table.get(1).unwrap().target_modes, base);
    assert!(!s.settle(1, seq, o, &base).settled(), "a second report says nothing new");
}
