use luminal_vgd::adapter::AdapterInfo;
use luminal_vgd::modepush::{
    live_gate, parked_push, preferred_monitor_mode_idx, stage, superset_index_of, CommittedMode,
    CommittedPaths, LiveGate, PushOutcome, MAX_COMMITTED_PATHS,
};
use luminal_vgd::modes::Mode;
use luminal_vgd::proto::{
    caps, err, BitDepth, CreateMonitorRequest, ModeSpec, LEASE_TIMEOUT_USE_DEFAULT,
};
use luminal_vgd::session::{ModeUpdateResult, SessionTable};

const CAPS: u32 = caps::MULTI_MODE | caps::DYNAMIC_MODES;
const BASE: u32 = 120_000;
const DOUBLED: u32 = 240_000;
const TOKEN: u64 = 7;

fn mode(refresh_millihz: u32) -> Mode {
    Mode {
        width: 2560,
        height: 1440,
        refresh_millihz,
        bit_depth: BitDepth::Sdr8,
        hdr: false,
    }
}

fn spec(refresh_millihz: u32) -> ModeSpec {
    ModeSpec { width: 2560, height: 1440, refresh_millihz }
}

fn adapters() -> Vec<AdapterInfo> {
    vec![AdapterInfo { luid: 0x20, vram_bytes: 16 << 30, name: "dGPU".into(), software: false }]
}

fn table_with_both_rates() -> SessionTable {
    let mut modes = [ModeSpec::default(); 4];
    modes[0] = spec(BASE);
    modes[1] = spec(DOUBLED);
    let req = CreateMonitorRequest {
        session_id: 1,
        display_id: 0,
        adapter_luid: 0,
        lease_timeout_ms: LEASE_TIMEOUT_USE_DEFAULT,
        bit_depth: 8,
        hdr: 0,
        edid_serial: 0,
        flags: 0,
        mode_count: 2,
        modes,
        physical_width_mm: 0,
        physical_height_mm: 0,
        friendly_name: [0; 32],
        max_nits: 0,
        reserved0: 0,
    };
    let mut t = SessionTable::new(4, 10);
    t.create(0, &req, CAPS, &adapters(), 0).expect("create");
    t
}

#[test]
fn a_parked_patch_commits_durably_so_a_rescind_still_re_pushes() {
    let mut t = table_with_both_rates();
    let superset: Vec<Mode> = t.get(1).unwrap().modes.clone();

    let update = t.update_modes(1, &[spec(DOUBLED)], CAPS, TOKEN).expect("accepted");
    let seq = update.queued.expect("a real change queues a push");

    let outcome = parked_push(&superset, &update.targets);
    assert!(t
        .settle_modes(1, seq, outcome.settle_result(), &update.targets)
        .settled());

    assert_eq!(
        t.get(1).unwrap().target_modes,
        vec![mode(DOUBLED)],
        "the durable list must match the parked spec the replug plugs with"
    );

    let rescind =
        t.update_modes(1, &[spec(BASE), spec(DOUBLED)], CAPS, TOKEN).expect("accepted");
    assert!(
        rescind.queued.is_some(),
        "rescinding a gate the driver applied must push, not short-circuit"
    );
    assert_eq!(rescind.targets.len(), 2);

    assert_eq!(outcome, PushOutcome::AppliedParked { published: 1, superset: 2 });
    assert!(outcome.commits(), "which is also what authorises the patch");
}

#[test]
fn outcomes_that_changed_nothing_do_not_commit() {
    let committed = CommittedMode { width: 2560, height: 1440, refresh_millihz: BASE };
    for outcome in [
        PushOutcome::Deferred { stage: stage::DUCK_PENDING, count: 1 },
        PushOutcome::Deferred { stage: stage::NO_ADAPTER, count: 1 },
        PushOutcome::Failed {
            stage: stage::OS_CALL,
            code: -1,
            count: 1,
            rolled_back: true,
        },
        PushOutcome::Failed {
            stage: stage::NOT_IN_SUPERSET,
            code: err::BAD_MODE,
            count: 1,
            rolled_back: false,
        },
    ] {
        assert!(!outcome.commits(), "{outcome:?}");
        assert_eq!(outcome.settle_result(), ModeUpdateResult::NotApplied, "{outcome:?}");
        assert!(outcome.retryable(), "{outcome:?}");
    }
    let blocked =
        PushOutcome::Blocked { committed, superset_idx: 3, token: 9, count: 1 };
    assert!(!blocked.commits());
    assert!(!blocked.retryable());
    assert_eq!(
        blocked.settle_result(),
        ModeUpdateResult::Blocked { superset_idx: 3, token: 9 }
    );
    for outcome in [
        PushOutcome::Applied { published: 1, superset: 2 },
        PushOutcome::AppliedParked { published: 1, superset: 2 },
    ] {
        assert!(outcome.commits(), "{outcome:?}");
        assert_eq!(outcome.settle_result(), ModeUpdateResult::Applied, "{outcome:?}");
    }
}

#[test]
fn a_parked_push_outside_the_parked_superset_is_refused_and_commits_nothing() {
    let superset = vec![mode(BASE), mode(DOUBLED)];
    let outcome = parked_push(&superset, &[mode(60_000)]);
    assert_eq!(
        outcome,
        PushOutcome::Failed {
            stage: stage::NOT_IN_SUPERSET,
            code: err::BAD_MODE,
            count: 1,
            rolled_back: false,
        }
    );
    assert!(!outcome.commits());
    assert!(matches!(
        parked_push(&superset, &[]),
        PushOutcome::Failed { stage: stage::EMPTY, .. }
    ));
}

#[test]
fn a_push_that_would_evict_the_committed_mode_is_refused() {
    let superset = vec![mode(BASE), mode(DOUBLED)];
    let committed = CommittedMode { width: 2560, height: 1440, refresh_millihz: BASE };

    assert_eq!(
        live_gate(&superset, &[mode(DOUBLED)], Some(committed)),
        LiveGate::EvictsCommitted { committed, superset_idx: 0 },
        "gating out the committed mode must be refused, not pushed blind"
    );

    assert_eq!(live_gate(&superset, &[mode(BASE)], Some(committed)), LiveGate::Push);
    assert_eq!(
        live_gate(&superset, &[mode(BASE), mode(DOUBLED)], Some(committed)),
        LiveGate::Push
    );
    assert_eq!(live_gate(&superset, &[mode(DOUBLED)], None), LiveGate::Push);
    let doubled_committed =
        CommittedMode { width: 2560, height: 1440, refresh_millihz: DOUBLED };
    assert_eq!(
        live_gate(&superset, &[mode(BASE)], Some(doubled_committed)),
        LiveGate::EvictsCommitted { committed: doubled_committed, superset_idx: 1 }
    );
}

#[test]
fn an_unrecognised_committed_mode_never_refuses_a_push_but_is_still_reported() {
    let superset = vec![mode(BASE), mode(DOUBLED)];
    let alien = CommittedMode { width: 1920, height: 1080, refresh_millihz: 60_000 };
    let gate = live_gate(&superset, &[mode(DOUBLED)], Some(alien));
    assert_eq!(gate, LiveGate::PushCommittedUnrecognised(alien));
    assert!(gate.pushes(), "fail-open: the push still goes ahead");
    assert!(LiveGate::Push.pushes());
    assert!(!LiveGate::NotInSuperset.pushes());
    assert!(!LiveGate::EvictsCommitted { committed: alien, superset_idx: 0 }.pushes());
    assert_eq!(superset_index_of(&superset, alien), None);
}

#[test]
fn a_refused_push_tells_the_host_it_is_permanent_and_which_mode_blocked_it() {
    let mut t = table_with_both_rates();
    let superset: Vec<Mode> = t.get(1).unwrap().modes.clone();
    let committed = CommittedMode { width: 2560, height: 1440, refresh_millihz: BASE };

    let first = t.update_modes(1, &[spec(DOUBLED)], CAPS, TOKEN).expect("accepted");
    let seq = first.queued.expect("a real change queues a push");
    assert_eq!(first.blocked, None, "nothing has been tried yet");

    let gate = live_gate(&superset, &first.targets, Some(committed));
    let LiveGate::EvictsCommitted { committed, superset_idx } = gate else {
        panic!("expected a refusal, got {gate:?}");
    };
    let outcome = PushOutcome::Blocked { committed, superset_idx, token: TOKEN, count: 1 };
    assert!(!outcome.retryable(), "THE property the wire has to carry");
    assert!(!outcome.commits(), "and a refusal still changes nothing");
    assert!(t.settle_modes(1, seq, outcome.settle_result(), &first.targets).settled());

    let m = t.get(1).unwrap();
    assert_eq!(m.target_modes, vec![mode(BASE), mode(DOUBLED)]);
    assert_eq!(m.last_error, err::MODE_COMMITTED);
    assert_ne!(
        err::MODE_COMMITTED,
        err::UPDATE_FAILED
    );

    let retry = t.update_modes(1, &[spec(DOUBLED)], CAPS, TOKEN).expect("answered");
    assert_eq!(retry.blocked, Some(0), "and names create-time mode 0 as the blocker");
    assert_eq!(
        superset[retry.blocked.unwrap() as usize],
        mode(BASE),
        "which is the mode the OS is running — the host can now ask for a subset with it"
    );
    assert!(retry.queued.is_none(), "no second push: it could only be refused again");
    assert_eq!(retry.targets, vec![mode(BASE), mode(DOUBLED)], "still what is in force");

    let narrower = t.update_modes(1, &[spec(BASE)], CAPS, TOKEN).expect("accepted");
    assert_eq!(narrower.blocked, None);
    assert!(narrower.queued.is_some(), "gating is still possible — just not over the OS");
    assert_eq!(live_gate(&superset, &narrower.targets, Some(committed)), LiveGate::Push);
}

#[test]
fn a_remembered_refusal_expires_when_anything_commits() {
    let mut t = table_with_both_rates();
    let seq = t
        .update_modes(1, &[spec(DOUBLED)], CAPS, TOKEN)
        .expect("accepted")
        .queued
        .expect("queued");
    assert!(t
        .settle_modes(
            1,
            seq,
            ModeUpdateResult::Blocked { superset_idx: 0, token: TOKEN },
            &[mode(DOUBLED)],
        )
        .settled());
    assert_eq!(
        t.update_modes(1, &[spec(DOUBLED)], CAPS, TOKEN).unwrap().blocked,
        Some(0),
        "same world, same answer"
    );

    let after = t.update_modes(1, &[spec(DOUBLED)], CAPS, TOKEN + 1).expect("accepted");
    assert_eq!(after.blocked, None);
    assert!(after.queued.is_some(), "re-derive the truth rather than trust a stale refusal");
}

#[test]
fn the_superset_check_precedes_the_committed_check() {
    let superset = vec![mode(BASE)];
    let committed = CommittedMode { width: 2560, height: 1440, refresh_millihz: BASE };
    assert_eq!(
        live_gate(&superset, &[mode(DOUBLED)], Some(committed)),
        LiveGate::NotInSuperset
    );
}

#[test]
fn a_committed_mode_survives_a_reduced_vsync_fraction() {
    let sent = CommittedMode::from_signal(2560, 1440, 240_000, 1000).unwrap();
    assert_eq!(sent.refresh_millihz, 240_000);
    assert_eq!(CommittedMode::from_signal(2560, 1440, 240, 1), Some(sent));
    assert_eq!(CommittedMode::from_signal(2560, 1440, 24_000, 100), Some(sent));
    assert!(sent.is(&mode(DOUBLED)));
    assert!(!sent.is(&mode(BASE)));
    assert_eq!(CommittedMode::from_signal(2560, 1440, 240, 0), None);
    assert_eq!(CommittedMode::from_signal(0, 1440, 240, 1), None);
    assert_eq!(CommittedMode::from_signal(2560, 1440, 0, 1), None);
}

#[test]
fn a_commit_replaces_the_whole_record() {
    let mut paths = CommittedPaths::new();
    let a = CommittedMode { width: 2560, height: 1440, refresh_millihz: BASE };
    let b = CommittedMode { width: 3840, height: 2160, refresh_millihz: 60_000 };
    assert_eq!(paths.get(0x11), None, "nothing committed yet");

    assert_eq!(paths.apply(&[(0x11, a), (0x22, b)], 2), 2);
    assert_eq!(paths.get(0x11), Some(a));
    assert_eq!(paths.get(0x22), Some(b));
    assert_eq!(paths.active(), 2);

    paths.apply(&[(0x11, b)], 1);
    assert_eq!(paths.get(0x11), Some(b), "same monitor, new mode");
    assert_eq!(paths.get(0x22), None, "a monitor that left the path set has nothing committed");

    paths.apply(&[], 0);
    assert_eq!(paths.get(0x11), None);
    assert_eq!(paths.active(), 0);
    assert!(paths.generation() >= 3, "every commit moves the token");
}

#[test]
fn a_rewrite_that_restores_the_same_key_is_still_detected() {
    let mut paths = CommittedPaths::new();
    let a = CommittedMode { width: 2560, height: 1440, refresh_millihz: BASE };
    let b = CommittedMode { width: 3840, height: 2160, refresh_millihz: DOUBLED };
    paths.apply(&[(0x11, a)], 1);
    for _ in 0..64 {
        paths.apply(&[(0x11, b)], 1);
        assert_eq!(paths.get(0x11), Some(b));
        paths.apply(&[(0x11, a)], 1);
        let read = paths.get(0x11).expect("committed");
        assert!(read == a || read == b, "torn read: {read:?}");
        assert_eq!(read, a);
    }
}

#[test]
fn a_lost_writer_clears_the_record_instead_of_mixing_two_commits() {
    let mut paths = CommittedPaths::new();
    let a = CommittedMode { width: 2560, height: 1440, refresh_millihz: BASE };
    let b = CommittedMode { width: 3840, height: 2160, refresh_millihz: 60_000 };
    paths.apply(&[(0x11, a)], 1);
    assert_eq!(paths.get(0x11), Some(a));

    assert!(paths.begin_write(), "uncontended");
    assert_eq!(paths.apply(&[(0x22, b)], 1), 0, "the loser writes nothing");
    let recorded = paths.end_write(1);
    paths.release();
    assert_eq!(recorded, 0, "and the holder clears rather than publish a mixture");
    assert_eq!(paths.get(0x11), None, "no committed mode ⇒ pushes proceed as before");
    assert_eq!(paths.get(0x22), None, "and the loser's paths never landed either");
    assert_eq!(paths.active(), 0);

    paths.apply(&[(0x11, b)], 1);
    assert_eq!(paths.get(0x11), Some(b));
}

#[test]
fn a_writer_turned_away_after_the_release_check_is_still_honoured() {
    let mut paths = CommittedPaths::new();
    let a = CommittedMode { width: 2560, height: 1440, refresh_millihz: BASE };
    let b = CommittedMode { width: 3840, height: 2160, refresh_millihz: 60_000 };
    let c = CommittedMode { width: 1920, height: 1080, refresh_millihz: DOUBLED };
    paths.apply(&[(0x11, a)], 1);
    assert_eq!(paths.get(0x11), Some(a));

    assert!(paths.begin_write(), "uncontended");
    assert_eq!(paths.end_write(1), 1, "nobody had been turned away when it looked");

    assert_eq!(paths.apply(&[(0x22, b)], 1), 0, "still held, so its update is dropped");

    paths.release();

    assert_eq!(
        paths.get(0x11),
        None,
        "a dropped commit must never leave a stale one standing"
    );
    assert_eq!(paths.get(0x22), None, "and the loser's paths never landed either");
    assert_eq!(paths.active(), 0);

    assert_eq!(paths.apply(&[(0x11, c)], 1), 1);
    assert_eq!(paths.get(0x11), Some(c), "a stale flag must not erase a good commit");
    assert_eq!(paths.active(), 1);

    assert_eq!(paths.get(0x22), None);
}

#[test]
fn forgetting_a_departed_monitor_leaves_the_others_alone() {
    let mut paths = CommittedPaths::new();
    let a = CommittedMode { width: 2560, height: 1440, refresh_millihz: BASE };
    let b = CommittedMode { width: 3840, height: 2160, refresh_millihz: 60_000 };
    paths.apply(&[(0x11, a), (0x22, b)], 2);
    paths.forget(0x11);
    assert_eq!(paths.get(0x11), None);
    assert_eq!(paths.get(0x22), Some(b));
    paths.forget(0);
    assert_eq!(paths.get(0x22), Some(b));
    assert_eq!(paths.get(0), None);
}

#[test]
fn more_paths_than_slots_is_bounded_but_the_active_count_is_not_truncated() {
    let mut paths = CommittedPaths::new();
    let m = CommittedMode { width: 2560, height: 1440, refresh_millihz: BASE };
    let many: Vec<(u64, CommittedMode)> =
        (1..=(MAX_COMMITTED_PATHS as u64 + 4)).map(|i| (i, m)).collect();
    assert_eq!(paths.apply(&many, many.len() as u32), MAX_COMMITTED_PATHS as u32);
    assert_eq!(paths.active(), many.len() as u32);
    assert!(paths.active() > MAX_COMMITTED_PATHS as u32);
    assert_eq!(paths.get(1), Some(m));
    assert_eq!(paths.get(MAX_COMMITTED_PATHS as u64), Some(m));
    assert_eq!(paths.get(MAX_COMMITTED_PATHS as u64 + 1), None);
}

#[test]
fn the_preferred_index_names_a_mode_that_is_actually_offered() {
    let superset = vec![mode(BASE), mode(DOUBLED)];
    assert_eq!(preferred_monitor_mode_idx(&superset, &superset, 2), 0);
    assert_eq!(preferred_monitor_mode_idx(&superset, &[mode(DOUBLED)], 2), 1);
    assert_eq!(preferred_monitor_mode_idx(&superset, &[mode(BASE)], 2), 0);
}

#[test]
fn the_preferred_index_stays_inside_the_reported_buffer() {
    let superset = vec![mode(BASE), mode(DOUBLED)];
    assert_eq!(preferred_monitor_mode_idx(&superset, &[mode(DOUBLED)], 1), 0);
    assert_eq!(preferred_monitor_mode_idx(&superset, &[mode(DOUBLED)], 0), 0);
    assert_eq!(preferred_monitor_mode_idx(&superset, &[mode(60_000)], 2), 0);
    assert_eq!(preferred_monitor_mode_idx(&[], &[mode(BASE)], 2), 0);
}
