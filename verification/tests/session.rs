use luminal_vgd::adapter::AdapterInfo;
use luminal_vgd::error::CoreError;
use luminal_vgd::identity::EPHEMERAL_DISPLAY_ID_BASE;
use luminal_vgd::proto::{
    caps, CreateMonitorRequest, ModeSpec, ABI_MAX_MONITORS, DEFAULT_MAX_MONITORS,
    DEFAULT_WATCHDOG_SECS, LEASE_TIMEOUT_DISABLED, LEASE_TIMEOUT_USE_DEFAULT, MAX_LEASE_TIMEOUT_MS,
    MIN_LEASE_TIMEOUT_MS,
};
use luminal_vgd::session::{effective_lease_timeout, SessionTable};

const CAPS: u32 = caps::HDR10 | caps::SDR10_BIT | caps::MULTI_MODE;

fn adapters() -> Vec<AdapterInfo> {
    vec![
        AdapterInfo { luid: 0x10, vram_bytes: 8 << 30, name: "iGPU".into(), software: false },
        AdapterInfo { luid: 0x20, vram_bytes: 16 << 30, name: "dGPU".into(), software: false },
    ]
}

fn req(session_id: u64) -> CreateMonitorRequest {
    let mut modes = [ModeSpec::default(); 4];
    modes[0] = ModeSpec { width: 1920, height: 1080, refresh_millihz: 60_000 };
    CreateMonitorRequest {
        session_id,
        display_id: 0,
        adapter_luid: 0,
        lease_timeout_ms: LEASE_TIMEOUT_USE_DEFAULT,
        bit_depth: 8,
        hdr: 0,
        edid_serial: 0,
        flags: 0,
        mode_count: 1,
        modes,
        physical_width_mm: 0,
        physical_height_mm: 0,
        friendly_name: [0; 32],
        max_nits: 0,
        reserved0: 0,
    }
}

fn stable_req(session_id: u64, display_id: u64) -> CreateMonitorRequest {
    let mut r = req(session_id);
    r.display_id = display_id;
    r
}

fn table() -> SessionTable {
    SessionTable::new(DEFAULT_MAX_MONITORS, DEFAULT_WATCHDOG_SECS)
}

#[test]
fn create_ping_destroy_lifecycle() {
    let mut t = table();
    let m = t.create(1000, &req(7), CAPS, &adapters(), 0).unwrap();
    assert_eq!(m.adapter_luid, 0x20, "default = largest VRAM");
    assert_eq!(m.ring_generation, 1);
    assert!(m.ephemeral_identity, "display_id 0 derives ephemeral");
    assert_eq!(m.connector_index, 0);
    assert_ne!(m.edid_serial, 0, "serial derived from identity");
    assert_eq!(t.len(), 1);

    t.ping(2000, 7).unwrap();
    assert_eq!(t.get(7).unwrap().last_ping_ms, 2000);

    let gone = t.destroy(7).unwrap();
    assert_eq!(gone.session_id, 7);
    assert!(t.is_empty());
    assert_eq!(t.destroy(7).err(), Some(CoreError::NoSuchSession));
}

#[test]
fn stable_identity_reclaims_connector_and_serial_across_leases() {
    let mut t = table();
    let m1 = t.create(0, &stable_req(1, 0xCAFE), CAPS, &adapters(), 0).unwrap();
    let (conn, serial, product) = (m1.connector_index, m1.edid_serial, m1.product_code);
    assert!(!m1.ephemeral_identity);

    t.destroy(1).unwrap();
    t.create(0, &req(2), CAPS, &adapters(), 0).unwrap();

    let m2 = t.create(0, &stable_req(3, 0xCAFE), CAPS, &adapters(), 0).unwrap();
    assert_eq!(m2.connector_index, conn);
    assert_eq!(m2.edid_serial, serial);
    assert_eq!(m2.product_code, product);
}

#[test]
fn ephemeral_identity_frees_connector_and_live_identity_is_exclusive() {
    let mut t = SessionTable::new(3, 3);
    t.create(0, &req(1), CAPS, &adapters(), 0).unwrap();
    t.create(0, &stable_req(2, 0xAA), CAPS, &adapters(), 0).unwrap();
    assert_eq!(
        t.create(0, &stable_req(3, 0xAA), CAPS, &adapters(), 0).err(),
        Some(CoreError::IdentityInUse)
    );
    let mut t2 = table();
    assert_eq!(
        t2.create(0, &stable_req(1, EPHEMERAL_DISPLAY_ID_BASE | 5), CAPS, &adapters(), 0)
            .err(),
        Some(CoreError::IdentityInUse)
    );
}

#[test]
fn preferred_adapter_applies_only_when_request_unset_and_falls_back_when_stale() {
    let mut t = table();
    let m = t.create(0, &req(1), CAPS, &adapters(), 0x10).unwrap();
    assert_eq!(m.adapter_luid, 0x10);
    let mut r = req(2);
    r.adapter_luid = 0x20;
    assert_eq!(t.create(0, &r, CAPS, &adapters(), 0x10).unwrap().adapter_luid, 0x20);
    assert_eq!(t.create(0, &req(3), CAPS, &adapters(), 0xDEAD).unwrap().adapter_luid, 0x20);
}

#[test]
fn lease_timeouts_resolve_and_clamp() {
    assert_eq!(effective_lease_timeout(0, 3), 10_000, "default floor");
    assert_eq!(effective_lease_timeout(0, 60), 60_000);
    assert_eq!(effective_lease_timeout(0, 0), LEASE_TIMEOUT_DISABLED);
    assert_eq!(effective_lease_timeout(LEASE_TIMEOUT_DISABLED, 3), LEASE_TIMEOUT_DISABLED);
    assert_eq!(effective_lease_timeout(1, 3), MIN_LEASE_TIMEOUT_MS);
    assert_eq!(effective_lease_timeout(9_999_999, 3), MAX_LEASE_TIMEOUT_MS);
    assert_eq!(effective_lease_timeout(15_000, 3), 15_000);
}

#[test]
fn per_lease_watchdog_reaps_independently() {
    let mut t = table();
    let mut short = req(1);
    short.lease_timeout_ms = 3_000;
    let mut long = req(2);
    long.lease_timeout_ms = 30_000;
    let mut never = req(3);
    never.lease_timeout_ms = LEASE_TIMEOUT_DISABLED;
    t.create(0, &short, CAPS, &adapters(), 0).unwrap();
    t.create(0, &long, CAPS, &adapters(), 0).unwrap();
    t.create(0, &never, CAPS, &adapters(), 0).unwrap();

    assert!(t.tick(3_000).is_empty(), "at deadline: not yet");
    let reaped = t.tick(3_001);
    assert_eq!(reaped.len(), 1);
    assert_eq!(reaped[0].session_id, 1);

    let reaped = t.tick(30_001);
    assert_eq!(reaped.len(), 1);
    assert_eq!(reaped[0].session_id, 2);

    assert!(t.tick(u64::MAX).is_empty(), "disabled lease never reaps");
}

#[test]
fn query_lease_reports_remaining() {
    let mut t = table();
    let mut r = req(1);
    r.lease_timeout_ms = 10_000;
    t.create(0, &r, CAPS, &adapters(), 0).unwrap();
    t.ping(5_000, 1).unwrap();
    let (_, _, remaining) = t.query_lease(9_000, 1).unwrap();
    assert_eq!(remaining, 6_000);
    let (_, _, remaining) = t.query_lease(99_000, 1).unwrap();
    assert_eq!(remaining, 0, "expired but not yet ticked");
    assert_eq!(t.query_lease(0, 9).err(), Some(CoreError::NoSuchSession));
}

#[test]
fn multi_mode_lists_are_stored_preferred_first() {
    let mut t = table();
    let mut r = req(1);
    r.mode_count = 2;
    r.modes[1] = ModeSpec { width: 1920, height: 1080, refresh_millihz: 120_000 };
    let m = t.create(0, &r, CAPS, &adapters(), 0).unwrap();
    assert_eq!(m.modes.len(), 2);
    assert_eq!(m.preferred_mode().refresh_millihz, 60_000);

    let mut bad = req(2);
    bad.mode_count = 0;
    assert_eq!(t.create(0, &bad, CAPS, &adapters(), 0).err(), Some(CoreError::BadMode));
    assert_eq!(t.len(), 1);
}

#[test]
fn max_monitors_cap_enforced_and_abi_clamped() {
    let mut t = SessionTable::new(2, 3);
    t.create(0, &req(1), CAPS, &adapters(), 0).unwrap();
    t.create(0, &req(2), CAPS, &adapters(), 0).unwrap();
    assert_eq!(t.create(0, &req(3), CAPS, &adapters(), 0).err(), Some(CoreError::MaxMonitors));
    t.destroy(1).unwrap();
    assert!(t.create(0, &req(3), CAPS, &adapters(), 0).is_ok());

    let t = SessionTable::new(999, 3);
    assert_eq!(t.handshake_reply(CAPS, 1).max_monitors, ABI_MAX_MONITORS);
}

#[test]
fn reservations_survive_restore_round_trip() {
    let mut t = table();
    t.create(0, &stable_req(1, 0xAB), CAPS, &adapters(), 0).unwrap();
    let saved = t.reservations();
    assert_eq!(saved, vec![(0xAB, 0)]);

    let mut t2 = table();
    t2.restore_reservations(&saved);
    let other = t2.create(0, &stable_req(5, 0xCD), CAPS, &adapters(), 0).unwrap();
    assert_eq!(other.connector_index, 1);
    let back = t2.create(0, &stable_req(6, 0xAB), CAPS, &adapters(), 0).unwrap();
    assert_eq!(back.connector_index, 0);
}

#[test]
fn status_reflects_identity_and_lease_fields() {
    let mut t = table();
    t.create(100, &stable_req(1, 0xAB), CAPS, &adapters(), 0).unwrap();
    {
        let m = t.get_mut(1).unwrap();
        m.frames_published = 500;
        m.ring_generation = 3;
    }
    let s = t.status(9999, 77, CAPS);
    assert_eq!(s.monitor_count, 1);
    let m1 = s.monitors[0];
    assert_eq!(m1.display_id, 0xAB);
    assert_eq!(m1.connector_index, 0);
    assert_eq!(m1.lease_timeout_ms, 10_000);
    assert_eq!(m1.frames_published, 500);
    assert_eq!(m1.ring_generation, 3);
    assert_eq!(s.monitors[1].session_id, 0);
}
