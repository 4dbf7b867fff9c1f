use luminal_vgd::modepush::CommittedMode;
use luminal_vgd::modes::Mode;
use luminal_vgd::proto::BitDepth;
use luminal_vgd::shell::report::{
    commit_paths, container_guid, describe_modes, described_adapter, mode_buffer, pack_luid,
    signal_info, target_fill, text_len, unpack_luid, wire_bpc_for, CommitPath,
};

fn at(width: u32, height: u32, refresh_millihz: u32) -> Mode {
    Mode { width, height, refresh_millihz, bit_depth: BitDepth::Sdr8, hdr: false }
}

fn path(monitor: u64, vsync_numerator: u32) -> CommitPath {
    CommitPath {
        active: true,
        monitor,
        width: 1920,
        height: 1080,
        vsync_numerator,
        vsync_denominator: 1000,
    }
}

#[test]
fn signals_state_rate_and_size() {
    let s = signal_info(&at(1920, 1080, 59_940), 1);
    assert_eq!(s.pixel_rate, 1920 * 1080 * 59_940 / 1000);
    assert_eq!((s.hsync_numerator, s.hsync_denominator), (59_940 * 1080 / 1000, 1));
    assert_eq!((s.vsync_numerator, s.vsync_denominator), (59_940, 1000));
    assert_eq!((s.width, s.height, s.vsync_divider), (1920, 1080, 1));
    let s = signal_info(&at(8, 10_000, 500_000), 0);
    assert_eq!(s.hsync_numerator, u32::MAX / 1000, "saturates before it is divided");
}

#[test]
fn a_reported_rate_is_recognised_when_it_comes_back_reduced() {
    let mode = at(1920, 1080, 120_000);
    let s = signal_info(&mode, 1);
    for f in [1u64, 8, 1000] {
        let back = CommittedMode::from_signal(
            s.width,
            s.height,
            s.vsync_numerator as u64 / f,
            s.vsync_denominator as u64 / f,
        )
        .unwrap();
        assert!(back.is(&mode));
    }
}

#[test]
fn depth_sets_the_bits_on_the_wire() {
    let of = |bit_depth: BitDepth| wire_bpc_for(&Mode { bit_depth, ..at(1, 1, 1) });
    assert_eq!(of(BitDepth::Sdr8), 8);
    assert_eq!(of(BitDepth::Sdr10), 10);
    assert_eq!(of(BitDepth::Hdr10), 10);
    assert_eq!(of(BitDepth::Hdr12), 12);
}

#[test]
fn mode_queries_count_or_fill() {
    let (a, b) = (at(1920, 1080, 60_000), at(1920, 1080, 120_000));
    assert_eq!(mode_buffer(0, true), None);
    assert_eq!(mode_buffer(4, false), None);
    assert_eq!(mode_buffer(4, true), Some(4));
    let r = describe_modes(&[a, b], &[b], None);
    assert_eq!((r.count, r.fill, r.preferred), (2, None, 1));
    let r = describe_modes(&[a, b], &[b], Some(8));
    assert_eq!((r.count, r.fill, r.preferred), (2, Some(2), 1));
    let r = describe_modes(&[a, b], &[b], Some(1));
    assert_eq!((r.count, r.fill), (1, Some(1)));
    assert_eq!(r.preferred, 0, "never beyond what is written");
    assert_eq!(target_fill(3, None), (3, None));
    assert_eq!(target_fill(3, Some(2)), (2, Some(2)));
    assert_eq!(target_fill(3, Some(9)), (3, Some(3)));
}

#[test]
fn only_active_paths_with_a_monitor_and_a_signal_count() {
    let mut paths = vec![
        path(1, 60_000),
        CommitPath { active: false, ..path(2, 60_000) },
        path(0, 60_000),
        CommitPath { vsync_denominator: 0, ..path(3, 60_000) },
        path(4, 120_000),
    ];
    let (recorded, total) = commit_paths(&paths);
    assert_eq!(total, 2);
    assert_eq!(recorded.len(), 2);
    assert_eq!(recorded[1], (4, CommittedMode { width: 1920, height: 1080, refresh_millihz: 120_000 }));
    paths = (1..=20).map(|m| path(m, 60_000)).collect();
    let (recorded, total) = commit_paths(&paths);
    assert_eq!((recorded.len(), total), (16, 20));
}

#[test]
fn container_guids_spell_the_identity() {
    let (a, b, c, tail) = container_guid(0x0123_4567_89AB_CDEF);
    assert_eq!((a, b, c), (0x0123_4567, 0x89AB, 0xCDEF));
    assert_eq!(&tail, b"LuminalV");
    for other in [0x0123_4567_89AB_CDEE, 0x0123_4567_89AA_CDEF, 0x0123_4566_89AB_CDEF] {
        assert_ne!(container_guid(other), (a, b, c, tail));
    }
}

#[test]
fn luids_pack_and_unpack() {
    assert_eq!(pack_luid(1, 2), 0x1_0000_0002);
    assert_eq!(pack_luid(-1, 0), 0xFFFF_FFFF_0000_0000);
    assert_eq!(unpack_luid(0xFFFF_FFFF_0000_0007), (-1, 7));
    let a = described_adapter(-1, 3, 5, 2, "x".to_string());
    assert_eq!((a.luid, a.vram_bytes, a.software), (0xFFFF_FFFF_0000_0003, 5, true));
    assert_eq!(a.name, "x");
    assert!(!described_adapter(0, 3, 5, 1, "x".to_string()).software);
}

#[test]
fn text_ends_at_the_first_nul() {
    assert_eq!(text_len(&[1, 2, 0, 3, 0]), 2);
    assert_eq!(text_len(&[1, 2]), 2);
    assert_eq!(text_len(&[]), 0);
}
