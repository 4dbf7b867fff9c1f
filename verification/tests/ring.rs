use luminal_vgd::proto::{slot_state, ABI_MAX_RING_SLOTS};
use luminal_vgd::ring::{RingPolicy, Slot};

#[test]
fn happy_path_publish_consume() {
    let mut r = RingPolicy::new(3);
    let w = r.writer_acquire().unwrap();
    assert_eq!(w.overwrote, None);
    let seq = r.publish(w.index);
    assert_eq!(seq, 1);

    let (i, got) = r.reader_acquire_latest().unwrap();
    assert_eq!(got, 1);
    r.reader_release(i);
    assert_eq!(r.slot(i), Slot::Free);
    assert_eq!(r.frames_published, 1);
    assert_eq!(r.frames_dropped, 0);
}

#[test]
fn writer_prefers_free_then_drops_oldest() {
    let mut r = RingPolicy::new(3);
    for _ in 0..3 {
        let w = r.writer_acquire().unwrap();
        assert_eq!(w.overwrote, None);
        r.publish(w.index);
    }
    let w = r.writer_acquire().unwrap();
    assert_eq!(w.overwrote, Some(1));
    let seq = r.publish(w.index);
    assert_eq!(seq, 4, "sequence keeps counting through drops");
    assert_eq!(r.frames_dropped, 1);

    let (_, got) = r.reader_acquire_latest().unwrap();
    assert_eq!(got, 4);
}

#[test]
fn reader_takes_newest_not_backlog() {
    let mut r = RingPolicy::new(3);
    for _ in 0..2 {
        let w = r.writer_acquire().unwrap();
        r.publish(w.index);
    }
    let (_, seq) = r.reader_acquire_latest().unwrap();
    assert_eq!(seq, 2, "stream reads freshest frame");
}

#[test]
fn writer_never_touches_slot_host_holds() {
    let mut r = RingPolicy::new(2);
    let w = r.writer_acquire().unwrap();
    r.publish(w.index);
    let (held, _) = r.reader_acquire_latest().unwrap();

    let w = r.writer_acquire().unwrap();
    assert_ne!(w.index, held);
    r.publish(w.index);
    for _ in 0..5 {
        let w = r.writer_acquire().unwrap();
        assert_ne!(w.index, held, "held slot is untouchable");
        r.publish(w.index);
    }
}

#[test]
fn all_slots_held_drops_frame_without_blocking() {
    let mut r = RingPolicy::new(2);
    for _ in 0..2 {
        let w = r.writer_acquire().unwrap();
        r.publish(w.index);
        r.reader_acquire_latest().unwrap();
    }
    assert_eq!(r.writer_acquire(), None, "no slot: drop, don't block");
    assert_eq!(r.frames_dropped, 1);
}

#[test]
fn reconcile_reading_protects_slot_and_free_reclaims_it() {
    let mut r = RingPolicy::new(2);
    for _ in 0..2 {
        let w = r.writer_acquire().unwrap();
        r.publish(w.index);
    }
    let newest = 1;
    r.reconcile_shared(newest, slot_state::READING);
    assert_eq!(r.slot(newest), Slot::Reading);

    let w = r.writer_acquire().unwrap();
    assert_ne!(w.index, newest);
    r.publish(w.index);

    let drops_before = r.frames_dropped;
    r.reconcile_shared(newest, slot_state::FREE);
    assert_eq!(r.slot(newest), Slot::Free);
    let w = r.writer_acquire().unwrap();
    assert_eq!(w.index, newest);
    assert_eq!(w.overwrote, None);
    assert_eq!(r.frames_dropped, drops_before);
}

#[test]
fn reconcile_ignores_driver_owned_and_bogus_states() {
    let mut r = RingPolicy::new(2);
    let w = r.writer_acquire().unwrap();
    r.reconcile_shared(w.index, slot_state::WRITING);
    assert_eq!(r.slot(w.index), Slot::Writing);
    r.publish(w.index);
    r.reconcile_shared(w.index, 0xDEAD);
    assert!(matches!(r.slot(w.index), Slot::Published(_)));
}

#[test]
fn reconcile_free_reading_respects_host_hold_after_lost_take() {
    let mut r = RingPolicy::new(2);
    for _ in 0..2 {
        let w = r.writer_acquire().unwrap();
        r.publish(w.index);
    }
    let w = r.writer_acquire().unwrap();
    assert_eq!(w.overwrote, Some(1));
    r.writer_abort(w.index);

    r.reconcile_shared(w.index, slot_state::READING);
    assert_eq!(r.slot(w.index), Slot::Reading);
    let w2 = r.writer_acquire().unwrap();
    assert_ne!(w2.index, w.index, "host-held slot must not be re-picked");

    r.reconcile_shared(w.index, slot_state::FREE);
    assert_eq!(r.slot(w.index), Slot::Free);
}

#[test]
fn writer_abort_reverts_and_counts_without_a_sequence() {
    let mut r = RingPolicy::new(2);
    let w = r.writer_acquire().unwrap();
    r.writer_abort(w.index);
    assert_eq!(r.slot(w.index), Slot::Free);
    assert_eq!(r.frames_dropped, 1);
    assert_eq!(r.frames_published, 0);
    let w = r.writer_acquire().unwrap();
    assert_eq!(r.publish(w.index), 1);
}

#[test]
fn rebuild_bumps_generation_but_sequences_continue() {
    let mut r = RingPolicy::new(3);
    let w = r.writer_acquire().unwrap();
    let last = r.publish(w.index);
    assert_eq!(r.generation, 1);

    let gen = r.rebuild();
    assert_eq!(gen, 2);
    assert!(r.reader_acquire_latest().is_none(), "slots reset");

    let w = r.writer_acquire().unwrap();
    let seq = r.publish(w.index);
    assert_eq!(seq, last + 1, "sequence spans the rebuild");
}

#[test]
fn slot_count_clamped_to_abi() {
    assert_eq!(RingPolicy::new(0).slot_count(), 2);
    assert_eq!(RingPolicy::new(1).slot_count(), 2);
    assert_eq!(
        RingPolicy::new(99).slot_count(),
        ABI_MAX_RING_SLOTS as usize
    );
}
