use luminal_vgd::proto::ring_state;
use luminal_vgd::tdr::{ring_tick, RingLive, RingTick};

#[test]
fn recovered_ring_settles_even_though_its_worker_pins_the_mutex() {
    let mut live = RingLive::new(true);
    live.publish_state(ring_state::REBUILDING);
    assert!(!live.settled(), "a ducked ring must start out pending");

    let generation = live.publish_worker_live();
    assert_eq!(generation, 1);

    assert_eq!(ring_tick(&live, false), RingTick::Settled);
    assert!(!ring_tick(&live, false).is_pending());
    assert!(live.publishing());
}

#[test]
fn rebuilding_ring_stays_pending_and_reports_a_lost_heartbeat() {
    let mut live = RingLive::new(true);
    live.publish_state(ring_state::REBUILDING);
    assert_eq!(ring_tick(&live, true), RingTick::Rebuilding);
    assert!(ring_tick(&live, true).is_pending());
    assert_eq!(ring_tick(&live, false), RingTick::HeartbeatBlocked);
    assert!(ring_tick(&live, false).is_pending());
}

#[test]
fn routine_worker_exit_leaves_the_ring_settled() {
    let mut live = RingLive::new(true);
    live.publish_worker_live();
    live.publish_worker_exit();
    assert!(live.settled());
    assert!(!live.publishing());
    assert_eq!(ring_tick(&live, false), RingTick::Settled);
}

#[test]
fn failure_exit_keeps_the_ring_pending_after_the_worker_is_gone() {
    let mut live = RingLive::new(true);
    live.publish_worker_live();
    live.publish_state(ring_state::REBUILDING);
    live.publish_worker_exit();
    assert!(!live.settled());
    assert!(!live.publishing());
    assert_eq!(ring_tick(&live, true), RingTick::Rebuilding);
}

#[test]
fn dead_ring_settles() {
    let mut live = RingLive::new(true);
    live.publish_state(ring_state::REBUILDING);
    assert!(!live.settled());
    live.publish_state(ring_state::DEAD);
    assert!(live.settled());
    assert_eq!(ring_tick(&live, false), RingTick::Settled);
}

#[test]
fn transportless_ring_is_permanently_settled() {
    let mut live = RingLive::new(false);
    live.publish_state(ring_state::REBUILDING);
    assert!(live.settled());
    assert_eq!(ring_tick(&live, false), RingTick::Settled);
}

#[test]
fn live_generation_counts_only_go_live_transitions() {
    let mut live = RingLive::new(true);
    assert_eq!(live.live_generation(), 0);
    live.publish_worker_live();
    live.publish_worker_exit();
    live.publish_state(ring_state::REBUILDING);
    assert_eq!(live.live_generation(), 1);
    assert_eq!(live.publish_worker_live(), 2);
}
