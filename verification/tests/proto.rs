use luminal_vgd::proto::{
    names, ring_section_size, versions_compatible, BitDepth, ABI_MAX_RING_SLOTS,
    LUMINAL_VGD_INTERFACE_GUID,
};

fn utf16_str(buf: &[u16]) -> String {
    let end = buf.iter().position(|&c| c == 0).unwrap_or(buf.len());
    String::from_utf16(&buf[..end]).unwrap()
}

#[test]
fn bit_depth_round_trips_and_rejects_junk() {
    for d in [BitDepth::Sdr8, BitDepth::Sdr10, BitDepth::Hdr10, BitDepth::Hdr12] {
        assert_eq!(BitDepth::from_raw(d.as_raw()), Some(d));
    }
    assert_eq!(BitDepth::from_raw(0), None);
    assert_eq!(BitDepth::from_raw(12), None);
    assert_eq!(BitDepth::from_raw(u32::MAX), None);
    assert!(BitDepth::Hdr10.is_hdr());
    assert!(BitDepth::Hdr12.is_hdr());
    assert!(!BitDepth::Sdr8.is_hdr());
    assert!(!BitDepth::Sdr10.is_hdr());
}

#[test]
fn version_compat_rule() {
    assert!(versions_compatible(0, 2, 0, 2));
    assert!(versions_compatible(0, 1, 0, 2));
    assert!(!versions_compatible(0, 2, 0, 1));
    assert!(!versions_compatible(1, 0, 0, 9));
    assert!(!versions_compatible(0, 9, 1, 0));
}

#[test]
fn ring_section_size_matches_layout() {
    assert_eq!(ring_section_size(0), 128);
    assert_eq!(ring_section_size(3), 128 + 3 * 80);
    assert_eq!(
        ring_section_size(ABI_MAX_RING_SLOTS),
        128 + 8 * 80
    );
}

#[test]
fn ring_section_name_is_deterministic() {
    let mut a = [0u16; 64];
    let mut b = [0u16; 64];
    let la = names::ring_section_name(0xDEAD_BEEF_0000_0001, &mut a);
    let lb = names::ring_section_name(0xDEAD_BEEF_0000_0001, &mut b);
    assert_eq!(a, b);
    assert_eq!(la, lb);
    assert_eq!(
        utf16_str(&a),
        "Global\\LuminalVGD-ring-deadbeef00000001"
    );
    assert!(a[la..].iter().all(|&c| c == 0));
}

#[test]
fn slot_texture_name_embeds_generation_and_slot() {
    let mut n = [0u16; 96];
    let len = names::slot_texture_name(0x0000_0000_0000_00AB, 7, 2, &mut n);
    assert_eq!(
        utf16_str(&n),
        "Global\\LuminalVGD-tex-00000000000000ab-g00000007-s02"
    );
    assert_eq!(len, utf16_str(&n).chars().count());

    let mut n2 = [0u16; 96];
    names::slot_texture_name(0x0000_0000_0000_00AB, 8, 2, &mut n2);
    assert_ne!(n, n2);
}

#[test]
fn cursor_section_name_is_distinct_from_ring() {
    let mut ring = [0u16; 64];
    let mut cur = [0u16; 64];
    names::ring_section_name(0xAB, &mut ring);
    names::cursor_section_name(0xAB, &mut cur);
    assert_ne!(ring, cur);
    assert_eq!(utf16_str(&cur), "Global\\LuminalVGD-cur-00000000000000ab");
}

#[test]
fn guid_matches_documented_value() {
    let (a, b, c, d) = LUMINAL_VGD_INTERFACE_GUID;
    assert_eq!(a, 0xB3A7F2D4);
    assert_eq!(b, 0x6E1C);
    assert_eq!(c, 0x4A98);
    assert_eq!(d, [0x9D, 0x3B, 0x5C, 0x0E, 0x8F, 0x71, 0x4A, 0x26]);
}
