use luminal_vgd::dispatch::{TDR_DUCK_DEVICE, TDR_DUCK_DISPLAY};
use luminal_vgd::proto::{ring_state, slot_state, KMTX_KEY_DRIVER, KMTX_KEY_HOST};
use luminal_vgd::ring::Slot;
use luminal_vgd::shell::frames::{
    acquire_outcome, device_made, stop_wait, AcquireOutcome, Act, FrameRing, FrameWorker, Start,
    StopWait, WorkerSlot, Write, E_PENDING, STATUS_PENDING, WAIT_TIMEOUT_HR,
};
use luminal_vgd::shell::sections::Publication;
use luminal_vgd::tdr::RingLive;

const DESC: Option<(u32, u32, u32)> = Some((1920, 1080, 87));

fn started(section: bool) -> (FrameRing, FrameWorker) {
    let mut ring = FrameRing::new(3, section);
    let (worker, _) = FrameWorker::begin(&mut ring, false, 0).unwrap();
    (ring, worker)
}

fn frame_to_lock(ring: &mut FrameRing, w: &mut FrameWorker, states: &[u32]) -> (usize, u64) {
    assert!(w.acquired(ring, 0, true, false).is_empty());
    assert_eq!(w.waiting, Act::Describe);
    let _ = w.described(ring, DESC, false);
    if let Act::Create { .. } = w.waiting {
        assert!(w.created(ring, true, false).is_empty());
    }
    assert_eq!(w.waiting, Act::ReadSlots);
    let _ = w.slots_read(ring, states, false);
    assert!(matches!(w.waiting, Act::TakeSlot { .. }));
    assert!(w.taken(ring, true, false).is_empty());
    match w.waiting {
        Act::Lock { index, key } => (index, key),
        other => panic!("unexpected {other:?}"),
    }
}

#[test]
fn device_failures_recover_only_where_configured() {
    assert_eq!(device_made(true, false, TDR_DUCK_DISPLAY), Start::Go);
    assert_eq!(device_made(true, true, TDR_DUCK_DEVICE), Start::Quit);
    assert_eq!(device_made(false, false, TDR_DUCK_DEVICE), Start::Recover);
    assert_eq!(device_made(false, false, TDR_DUCK_DISPLAY), Start::Quit);
    assert_eq!(device_made(false, true, TDR_DUCK_DEVICE), Start::Quit);
}

#[test]
fn mutex_results_are_told_apart() {
    assert_eq!(acquire_outcome(0), AcquireOutcome::Acquired);
    assert_eq!(acquire_outcome(WAIT_TIMEOUT_HR), AcquireOutcome::TimedOut);
    assert_eq!(acquire_outcome(0x80), AcquireOutcome::DeviceLost(0x80));
    assert_eq!(acquire_outcome(-5), AcquireOutcome::DeviceLost(-5));
}

#[test]
fn first_worker_starts_and_a_later_one_retires() {
    let mut ring = FrameRing::new(3, true);
    assert!(FrameWorker::begin(&mut ring, true, 0).is_none());
    assert!(!ring.assigned_before);
    let (w, writes) = FrameWorker::begin(&mut ring, false, 5).unwrap();
    assert_eq!(w.waiting, Act::Acquire);
    assert_eq!(writes, vec![Write::State(ring_state::ACTIVE), Write::WorkerLive]);
    let (_, writes) = FrameWorker::begin(&mut ring, false, 5).unwrap();
    assert_eq!(
        writes,
        vec![
            Write::FreeAll,
            Write::Generation(2),
            Write::State(ring_state::ACTIVE),
            Write::WorkerLive
        ]
    );
    assert_eq!(ring.policy.generation, 2);
}

#[test]
fn a_frame_travels_from_surface_to_slot() {
    let (mut ring, mut w) = started(true);
    let _ = w.acquired(&mut ring, 0, true, false);
    let writes = w.described(&mut ring, DESC, false);
    assert!(writes.is_empty(), "nothing to retire the first time");
    assert_eq!(
        w.waiting,
        Act::Create { generation: 1, slots: 3, width: 1920, height: 1080, format: 87 }
    );
    let _ = w.created(&mut ring, true, false);
    let _ = w.slots_read(&mut ring, &[0, 0, 0], false);
    assert_eq!(w.waiting, Act::TakeSlot { index: 0, expected: slot_state::FREE });
    let _ = w.taken(&mut ring, true, false);
    assert_eq!(w.waiting, Act::Lock { index: 0, key: KMTX_KEY_DRIVER });
    let _ = w.locked(&mut ring, 0, false);
    assert_eq!(w.waiting, Act::Copy { index: 0 });
    let writes = w.copied(&mut ring, true, 0, 4242, false);
    let p = Publication {
        index: 0,
        sequence: 1,
        present_qpc: 4242,
        frames_published: 1,
        frames_dropped: 0,
    };
    assert_eq!(writes, vec![Write::Published(p)]);
    assert_eq!(w.waiting, Act::Finish { failed: false });
    assert_eq!(w.finished(&mut ring, false, 100), vec![Write::Beat]);
    assert_eq!(w.waiting, Act::Acquire);
    assert_eq!(ring.policy.slot(0), Slot::Published(1));

    let (index, key) = frame_to_lock(&mut ring, &mut w, &[slot_state::FREE, 0, 0]);
    assert_eq!((index, key), (0, KMTX_KEY_HOST), "the host has had this mutex");
    let _ = w.locked(&mut ring, 0, false);
    let writes = w.copied(&mut ring, true, 7, 4242, false);
    assert!(matches!(writes[0], Write::Published(p) if p.present_qpc == 7 && p.sequence == 2));
}

#[test]
fn held_slots_are_left_to_the_host() {
    let (mut ring, mut w) = started(true);
    let r = slot_state::READING;
    let (index, _) = frame_to_lock(&mut ring, &mut w, &[r, r, 0]);
    assert_eq!(index, 2);
    assert_eq!(ring.policy.slot(0), Slot::Reading);
    let _ = w.locked(&mut ring, WAIT_TIMEOUT_HR, false);
    let _ = w.finished(&mut ring, false, 0);
    let _ = w.acquired(&mut ring, 0, true, false);
    let _ = w.described(&mut ring, DESC, false);
    let writes = w.slots_read(&mut ring, &[r, r, r], false);
    assert_eq!(writes, vec![Write::Beat]);
    assert_eq!(w.waiting, Act::Finish { failed: false });
    assert_eq!(ring.policy.frames_dropped, 2);
}

#[test]
fn a_lost_race_for_a_slot_drops_the_frame_and_leaves_the_slot() {
    let (mut ring, mut w) = started(true);
    let _ = w.acquired(&mut ring, 0, true, false);
    let _ = w.described(&mut ring, DESC, false);
    let _ = w.created(&mut ring, true, false);
    let _ = w.slots_read(&mut ring, &[0, 0, 0], false);
    let writes = w.taken(&mut ring, false, false);
    assert_eq!(writes, vec![Write::Beat], "the host's mark is not overwritten");
    assert_eq!(ring.policy.slot(0), Slot::Free);
    assert_eq!(ring.policy.frames_dropped, 1);
}

#[test]
fn mutex_trouble_gives_the_slot_back() {
    let (mut ring, mut w) = started(true);
    frame_to_lock(&mut ring, &mut w, &[0, 0, 0]);
    assert_eq!(w.locked(&mut ring, WAIT_TIMEOUT_HR, false), vec![Write::FreeSlot(0)]);
    assert_eq!(w.waiting, Act::Finish { failed: false });
    let _ = w.finished(&mut ring, false, 0);
    frame_to_lock(&mut ring, &mut w, &[0, 0, 0]);
    assert_eq!(w.locked(&mut ring, -1, false), vec![Write::FreeSlot(0)]);
    assert_eq!(w.waiting, Act::Finish { failed: true });
    assert_eq!(
        w.finished(&mut ring, false, 0),
        vec![
            Write::Beat,
            Write::State(ring_state::REBUILDING),
            Write::FreeAll,
            Write::Generation(2),
            Write::LiveState(ring_state::REBUILDING),
            Write::WorkerExit
        ]
    );
    assert_eq!(w.waiting, Act::AskRemoved);
    w.removal_known(Some(-7));
    assert_eq!(w.waiting, Act::Exit { duck: Some(-7) });
}

#[test]
fn a_stop_after_the_lock_hands_the_mutex_back_under_its_key() {
    let (mut ring, mut w) = started(true);
    let (index, key) = frame_to_lock(&mut ring, &mut w, &[0, 0, 0]);
    assert!(w.locked(&mut ring, 0, true).is_empty());
    assert_eq!(w.waiting, Act::Unlock { index, key });
    assert_eq!(w.unlocked(&mut ring, true), vec![Write::FreeSlot(index), Write::WorkerExit]);
    assert_eq!(w.waiting, Act::Exit { duck: None });
    assert_eq!(ring.policy.slot(index), Slot::Free);
}

#[test]
fn a_failed_copy_breaks_the_worker() {
    let (mut ring, mut w) = started(true);
    frame_to_lock(&mut ring, &mut w, &[0, 0, 0]);
    let _ = w.locked(&mut ring, 0, false);
    assert_eq!(w.copied(&mut ring, false, 0, 0, false), vec![Write::FreeSlot(0)]);
    assert_eq!(w.waiting, Act::Finish { failed: true });
}

#[test]
fn a_new_size_retires_the_textures() {
    let (mut ring, mut w) = started(true);
    frame_to_lock(&mut ring, &mut w, &[0, 0, 0]);
    let _ = w.locked(&mut ring, 0, false);
    let _ = w.copied(&mut ring, true, 1, 1, false);
    let _ = w.finished(&mut ring, false, 0);
    let _ = w.acquired(&mut ring, 0, true, false);
    let writes = w.described(&mut ring, Some((1280, 720, 87)), false);
    assert_eq!(writes, vec![Write::FreeAll, Write::Generation(2)]);
    assert_eq!(
        w.waiting,
        Act::Create { generation: 2, slots: 3, width: 1280, height: 720, format: 87 }
    );
    let _ = w.created(&mut ring, false, false);
    assert_eq!(w.waiting, Act::Finish { failed: true });
    assert!(!ring.textures);
    assert!(!ring.ever_published[0], "fresh textures start with the driver's key");
}

#[test]
fn pending_waits_and_heartbeats_keep_coming() {
    let (mut ring, mut w) = started(true);
    assert!(w.acquired(&mut ring, STATUS_PENDING, false, false).is_empty());
    assert_eq!(w.waiting, Act::Wait);
    assert!(w.resumed(&mut ring, false, 249).is_empty());
    let _ = w.acquired(&mut ring, E_PENDING, false, false);
    assert_eq!(w.resumed(&mut ring, false, 250), vec![Write::Beat]);
    assert_eq!(w.beat_ms, 250);
    let _ = w.acquired(&mut ring, 0, false, false);
    assert_eq!(w.waiting, Act::Skip);
    assert_eq!(w.resumed(&mut ring, true, 260), vec![Write::WorkerExit]);
}

#[test]
fn a_failed_acquire_breaks_the_worker_and_a_stop_wins_over_it() {
    let (mut ring, mut w) = started(true);
    assert_eq!(w.acquired(&mut ring, -1, false, true), vec![Write::WorkerExit]);
    assert_eq!(w.waiting, Act::Exit { duck: None });
    let (mut ring, mut w) = started(true);
    let writes = w.acquired(&mut ring, -1, false, false);
    assert_eq!(writes[0], Write::State(ring_state::REBUILDING));
    assert_eq!(*writes.last().unwrap(), Write::WorkerExit);
    assert_eq!(ring.policy.generation, 2);
    let (mut ring, mut w) = started(true);
    let _ = w.acquired(&mut ring, 0, true, false);
    let _ = w.described(&mut ring, None, false);
    assert_eq!(w.waiting, Act::Finish { failed: true }, "a surface of another kind");
}

#[test]
fn without_a_section_frames_are_only_finished() {
    let (mut ring, mut w) = started(false);
    assert!(w.acquired(&mut ring, 0, true, false).is_empty());
    assert_eq!(w.waiting, Act::Finish { failed: false });
    assert!(w.finished(&mut ring, false, 10).is_empty());
    let writes = w.acquired(&mut ring, -1, true, false);
    assert_eq!(writes, vec![Write::LiveState(ring_state::REBUILDING), Write::WorkerExit]);
}

#[test]
fn writes_reach_the_section_and_the_live_state() {
    let p = Publication {
        index: 1,
        sequence: 3,
        present_qpc: 4,
        frames_published: 1,
        frames_dropped: 0,
    };
    assert_eq!(Write::FreeAll.stores(3, 0).len(), 3);
    assert_eq!(Write::FreeSlot(2).stores(3, 0)[0].offset, 128 + 160);
    assert_eq!(Write::Generation(9).stores(3, 0)[0].bytes, 9u32.to_le_bytes());
    assert_eq!(Write::State(2).stores(3, 0)[0].offset, 16);
    assert_eq!(Write::Beat.stores(3, 6)[0].bytes, 6u64.to_le_bytes());
    assert_eq!(Write::Published(p).stores(3, 6).len(), 12);
    assert!(Write::WorkerExit.stores(3, 6).is_empty());
    let mut live = RingLive::new(true);
    Write::WorkerLive.report(&mut live);
    assert!(live.publishing());
    Write::Beat.report(&mut live);
    assert!(live.publishing());
    Write::LiveState(ring_state::REBUILDING).report(&mut live);
    assert!(!live.settled());
    Write::WorkerExit.report(&mut live);
    assert!(!live.publishing());
}

#[test]
fn a_replaced_worker_is_not_kept() {
    let mut slot = WorkerSlot { monitor: 9, adapter_luid: 0, worker: None };
    assert_eq!(slot.assign(0x20, 1), None);
    assert_eq!(slot.adapter_luid, 0x20);
    assert!(slot.keeps(9, 1));
    assert!(!slot.keeps(8, 1));
    assert_eq!(slot.assign(0x21, 2), Some(1));
    assert!(!slot.keeps(9, 1));
    assert_eq!(slot.unassign(), Some(2));
    assert!(!slot.keeps(9, 2));
    assert_eq!(stop_wait(true, 900), StopWait::Join);
    assert_eq!(stop_wait(false, 499), StopWait::Sleep);
    assert_eq!(stop_wait(false, 500), StopWait::Detach);
}
