use luminal_vgd::dispatch::{TDR_DUCK_DEVICE, TDR_DUCK_DISPLAY};
use luminal_vgd::proto::ring_state;
use luminal_vgd::tdr::{
    pending_on, recovery_step, return_step, ring_tick, still_pending, RecoveryStep, ReturnStep,
    RingLive, RingLook, RingTick,
};

fn look(session_id: u64, adapter_luid: u64, tick: RingTick) -> RingLook {
    RingLook { session_id, adapter_luid, tick }
}

#[test]
fn only_late_rings_on_the_lost_adapter_are_pending() {
    let looks = [
        look(1, 0x20, RingTick::Rebuilding),
        look(2, 0x20, RingTick::Settled),
        look(3, 0x30, RingTick::Rebuilding),
        look(4, 0x20, RingTick::HeartbeatBlocked),
    ];
    assert_eq!(pending_on(&looks, 0x20), vec![1, 4]);
    assert_eq!(pending_on(&looks, 0x40), Vec::<u64>::new());
    assert_eq!(pending_on(&[], 0x20), Vec::<u64>::new());
}

#[test]
fn displays_stay_attached_while_there_is_hope() {
    let device = TDR_DUCK_DEVICE;
    assert_eq!(recovery_step(device, 0, true, 2), RecoveryStep::Wait);
    assert_eq!(recovery_step(device, 9_999, true, 1), RecoveryStep::Wait);
    assert_eq!(recovery_step(device, 10_000, true, 1), RecoveryStep::DepartPending);
    assert_eq!(recovery_step(device, 10_000, false, 1), RecoveryStep::Wait, "still down");
    assert_eq!(recovery_step(device, 599_999, false, 1), RecoveryStep::Wait);
    assert_eq!(recovery_step(device, 600_000, false, 1), RecoveryStep::DepartPending);
    assert_eq!(recovery_step(device, 700_000, false, 0), RecoveryStep::Done);
    assert_eq!(recovery_step(TDR_DUCK_DISPLAY, 0, false, 0), RecoveryStep::DepartAll);
}

#[test]
fn monitors_return_only_with_their_adapter() {
    assert_eq!(return_step(1, 1, false, 0), ReturnStep::Wait);
    assert_eq!(return_step(1, 1, true, 0), ReturnStep::Replug);
    assert_eq!(return_step(1, 1, false, 10_000), ReturnStep::Wait);
    assert_eq!(return_step(1, 1, false, 600_000), ReturnStep::GiveUp);
    assert_eq!(return_step(1, 2, true, 0), ReturnStep::Stale);
}

#[test]
fn rings_that_came_back_meanwhile_are_spared() {
    assert_eq!(still_pending(&[1, 2, 3], &[3, 9, 1]), vec![1, 3]);
    assert_eq!(still_pending(&[1], &[]), Vec::<u64>::new());
    let mut live = RingLive::new(true);
    live.publish_state(ring_state::REBUILDING);
    assert!(ring_tick(&live, true).is_pending());
    live.publish_worker_live();
    assert!(live.publishing() && !ring_tick(&live, false).is_pending());
}
