use luminal_vgd::error::CoreError;
use luminal_vgd::identity::permanent_display_id;
use luminal_vgd::permanent::{
    member_request, permanent_session_id, reconcile, validate, Reconcile,
};
use luminal_vgd::proto::{caps, create_flags, PermanentPoolConfig, LEASE_TIMEOUT_DISABLED};

fn config(count: u32) -> PermanentPoolConfig {
    PermanentPoolConfig {
        count,
        width: 1920,
        height: 1080,
        refresh_millihz: 60_000,
        bit_depth: 8,
        hdr: 0,
        physical_width_mm: 0,
        physical_height_mm: 0,
        name: [0; 32],
    }
}

#[test]
fn validates_count_and_mode() {
    assert!(validate(&config(0), 0, 10).is_ok(), "0 disbands, always fine");
    assert!(validate(&config(4), 0, 10).is_ok());
    assert_eq!(validate(&config(5), 0, 10).err(), Some(CoreError::BadPool));
    assert_eq!(validate(&config(3), 0, 2).err(), Some(CoreError::BadPool));
    let mut bad = config(1);
    bad.width = 7;
    assert_eq!(validate(&bad, 0, 10).err(), Some(CoreError::BadPool));
    let mut hdr = config(1);
    hdr.bit_depth = 110;
    hdr.hdr = 1;
    assert_eq!(validate(&hdr, 0, 10).err(), Some(CoreError::BadPool), "caps-gated");
    assert!(validate(&hdr, caps::HDR10, 10).is_ok());
}

#[test]
fn member_requests_use_permanent_identity_and_never_expire() {
    let r = member_request(&config(2), 1);
    assert_eq!(r.display_id, permanent_display_id(1));
    assert_eq!(r.session_id, permanent_session_id(1));
    assert_ne!(r.session_id, r.display_id, "lease key ≠ identity");
    assert_eq!(r.lease_timeout_ms, LEASE_TIMEOUT_DISABLED);
    assert_eq!(r.flags & create_flags::EPHEMERAL_IDENTITY, 0);
    assert_eq!(r.mode_count, 1);
}

#[test]
fn reconcile_grows_shrinks_and_rebuilds() {
    let r = reconcile(&config(1), 1, &config(3));
    assert_eq!(r, Reconcile { destroy: vec![], create: vec![1, 2] });
    let r = reconcile(&config(3), 3, &config(1));
    assert_eq!(r, Reconcile { destroy: vec![1, 2], create: vec![] });
    let r = reconcile(&config(2), 2, &config(2));
    assert_eq!(r, Reconcile { destroy: vec![], create: vec![] });
    let mut newcfg = config(2);
    newcfg.refresh_millihz = 120_000;
    let r = reconcile(&config(2), 2, &newcfg);
    assert_eq!(r, Reconcile { destroy: vec![0, 1], create: vec![0, 1] });
    let r = reconcile(&config(2), 2, &config(0));
    assert_eq!(r, Reconcile { destroy: vec![0, 1], create: vec![] });
}
