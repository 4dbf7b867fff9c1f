use luminal_vgd::error::CoreError;
use luminal_vgd::modes::Mode;
use luminal_vgd::proto::{caps, ModeSpec, MAX_MODES_PER_MONITOR};

const ALL_CAPS: u32 =
    caps::HDR10 | caps::HDR12_BIT | caps::SDR10_BIT | caps::DIRTY_RECTS | caps::REFRESH_DOUBLING;

#[test]
fn accepts_common_streaming_modes() {
    for (w, h, hz) in [
        (1920, 1080, 60_000),
        (2560, 1440, 120_000),
        (3840, 2160, 119_880),
        (7680, 4320, 60_000),
        (1280, 800, 90_000),
    ] {
        let m = Mode::validate(w, h, hz, 8, 0, ALL_CAPS).unwrap();
        assert_eq!((m.width, m.height, m.refresh_millihz), (w, h, hz));
    }
}

#[test]
fn rejects_out_of_envelope() {
    assert_eq!(Mode::validate(318, 240, 60_000, 8, 0, ALL_CAPS), Err(CoreError::BadMode));
    assert_eq!(Mode::validate(640, 198, 60_000, 8, 0, ALL_CAPS), Err(CoreError::BadMode));
    assert_eq!(Mode::validate(7682, 4320, 60_000, 8, 0, ALL_CAPS), Err(CoreError::BadMode));
    assert_eq!(Mode::validate(1920, 1080, 0, 8, 0, ALL_CAPS), Err(CoreError::BadMode));
    assert_eq!(Mode::validate(1921, 1080, 60_000, 8, 0, ALL_CAPS), Err(CoreError::BadMode));
    assert_eq!(Mode::validate(1920, 1081, 60_000, 8, 0, ALL_CAPS), Err(CoreError::BadMode));
    assert_eq!(Mode::validate(1920, 1080, 60_000, 8, 7, ALL_CAPS), Err(CoreError::BadMode));
    assert!(Mode::validate(320, 200, 60_000, 8, 0, ALL_CAPS).is_ok());
    assert!(Mode::validate(1920, 1080, 1_000_000, 8, 0, ALL_CAPS).is_ok());
}

#[test]
fn depth_and_dynamic_range_must_agree() {
    assert_eq!(Mode::validate(1920, 1080, 60_000, 8, 1, ALL_CAPS), Err(CoreError::BadBitDepth));
    assert_eq!(
        Mode::validate(1920, 1080, 60_000, 110, 0, ALL_CAPS),
        Err(CoreError::BadBitDepth)
    );
    assert_eq!(
        Mode::validate(1920, 1080, 60_000, 12, 1, ALL_CAPS),
        Err(CoreError::BadBitDepth)
    );
}

#[test]
fn caps_gate_hdr_and_deep_color() {
    assert_eq!(
        Mode::validate(1920, 1080, 60_000, 110, 1, caps::SDR10_BIT),
        Err(CoreError::HdrUnsupported)
    );
    assert_eq!(
        Mode::validate(1920, 1080, 60_000, 112, 1, caps::HDR10),
        Err(CoreError::HdrUnsupported)
    );
    assert_eq!(
        Mode::validate(1920, 1080, 60_000, 10, 0, caps::HDR10),
        Err(CoreError::BadBitDepth)
    );
    assert!(Mode::validate(1920, 1080, 60_000, 110, 1, ALL_CAPS).is_ok());
    assert!(Mode::validate(1920, 1080, 60_000, 112, 1, ALL_CAPS).is_ok());
    assert!(Mode::validate(1920, 1080, 60_000, 10, 0, ALL_CAPS).is_ok());
}

#[test]
fn refresh_doubling_respects_envelope() {
    assert_eq!(Mode::doubled_refresh(60_000), Some(120_000));
    assert_eq!(Mode::doubled_refresh(240_000), Some(480_000));
    assert_eq!(Mode::doubled_refresh(u32::MAX), None);
}

#[test]
fn mode_lists_validate_as_a_set() {
    let specs = [
        ModeSpec { width: 2560, height: 1440, refresh_millihz: 120_000 },
        ModeSpec { width: 2560, height: 1440, refresh_millihz: 240_000 },
        ModeSpec::default(),
        ModeSpec::default(),
    ];
    let modes = Mode::validate_list(&specs, 2, 8, 0, ALL_CAPS).unwrap();
    assert_eq!(modes.len(), 2);
    assert_eq!(modes[0].refresh_millihz, 120_000, "preferred first");

    assert_eq!(Mode::validate_list(&specs, 0, 8, 0, ALL_CAPS).err(), Some(CoreError::BadMode));
    assert_eq!(Mode::validate_list(&specs, 5, 8, 0, ALL_CAPS).err(), Some(CoreError::BadMode));
    assert_eq!(Mode::validate_list(&specs, 3, 8, 0, ALL_CAPS).err(), Some(CoreError::BadMode));
    let dup = [specs[0], specs[0]];
    assert_eq!(Mode::validate_list(&dup, 2, 8, 0, ALL_CAPS).err(), Some(CoreError::BadMode));
}

fn m(hz: u32) -> Mode {
    Mode::validate(2560, 1440, hz, 8, 0, ALL_CAPS).unwrap()
}

#[test]
fn select_targets_publishes_the_requested_subset_of_the_superset() {
    let superset = vec![m(120_000), m(240_000)];
    let r = Mode::select_targets(&superset, &[m(240_000)]);
    assert_eq!((r.accepted, r.rejected, r.first_rejected), (1, 0, None));
    assert_eq!(r.targets, vec![m(240_000)]);
    assert!(!r.is_empty());

    let r = Mode::select_targets(&superset, &[m(120_000)]);
    assert_eq!(r.targets, vec![m(120_000)]);

    let r = Mode::select_targets(&superset, &[m(240_000), m(120_000)]);
    assert_eq!(r.targets, vec![m(240_000), m(120_000)]);
    assert_eq!((r.accepted, r.rejected), (2, 0));
}

#[test]
fn select_targets_rejects_anything_outside_the_superset_with_detail() {
    let superset = vec![m(60_000), m(120_000)];
    let r = Mode::select_targets(&superset, &[m(120_000), m(240_000)]);
    assert_eq!(r.targets, vec![m(120_000)], "only what the monitor really has");
    assert_eq!((r.accepted, r.rejected), (1, 1));
    assert_eq!(r.first_rejected, Some(1), "and WHICH entry was refused");
    assert!(!r.is_empty(), "partial: publish what exists");

    for t in &r.targets {
        assert!(superset.contains(t), "targets ⊆ superset, always");
    }
}

#[test]
fn select_targets_reports_an_empty_selection_rather_than_an_empty_list() {
    let superset = vec![m(60_000)];
    let r = Mode::select_targets(&superset, &[m(120_000), m(240_000)]);
    assert!(r.is_empty(), "the caller must refuse, not publish");
    assert_eq!((r.accepted, r.rejected, r.first_rejected), (0, 2, Some(0)));

    let r = Mode::select_targets(&superset, &[]);
    assert!(r.is_empty());
    assert_eq!((r.accepted, r.rejected), (0, 0));
}

#[test]
fn select_targets_is_idempotent_and_counts_every_requested_entry() {
    let superset = vec![m(60_000), m(90_000), m(120_000), m(240_000)];
    assert_eq!(superset.len(), MAX_MODES_PER_MONITOR as usize);
    let want = [m(120_000), m(240_000)];
    let once = Mode::select_targets(&superset, &want);
    let twice = Mode::select_targets(&superset, &once.targets);
    assert_eq!(once.targets, twice.targets, "resending the published list changes nothing");

    let r = Mode::select_targets(&superset, &[m(60_000), m(60_000)]);
    assert_eq!((r.targets, r.accepted, r.rejected), (vec![m(60_000)], 2, 0));
    let r = Mode::select_targets(&superset, &superset);
    assert_eq!(r.targets, superset);

    for req in [
        vec![m(30_000)],
        vec![m(30_000), m(45_000)],
        vec![m(120_000)],
        vec![m(120_000), m(30_000), m(240_000)],
    ] {
        let r = Mode::select_targets(&superset, &req);
        assert_eq!(r.accepted + r.rejected, req.len());
    }
}
