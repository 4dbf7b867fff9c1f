use luminal_vgd::edid::{generate, DtdTiming, EdidParams};
use luminal_vgd::luminance::{hdr_luminance_codes, HdrLuminanceCodes};
use luminal_vgd::modes::Mode;
use luminal_vgd::proto::caps;

fn mode(w: u32, h: u32, hz: u32) -> Mode {
    Mode::validate(w, h, hz, 8, 0, caps::SDR10_BIT).unwrap()
}

fn hdr_mode() -> Mode {
    Mode::validate(1920, 1080, 60_000, 110, 1, caps::HDR10).unwrap()
}

fn utf16(s: &str) -> Vec<u16> {
    let mut v: Vec<u16> = s.encode_utf16().collect();
    v.push(0);
    v
}

fn params<'a>(m: &'a Mode, name: &'a [u16]) -> EdidParams<'a> {
    EdidParams {
        mode: m,
        friendly_name: name,
        serial: 42,
        product_code: 0x5001,
        physical_width_mm: 0,
        physical_height_mm: 0,
        max_nits: 0,
    }
}

#[test]
fn nits_zero_keeps_default_luminance_codes() {
    let c = hdr_luminance_codes(0);
    assert_eq!(c, HdrLuminanceCodes { max: 138, max_fall: 96, min: 18 });
}

#[test]
fn nits_800_encodes_exactly_code_128() {
    let c = hdr_luminance_codes(800);
    assert_eq!(c.max, 128);
    assert_eq!(c.max_fall, 86);
    assert_eq!(c.min, 20);
}

#[test]
fn nits_1000_rounds_to_the_historical_default_code() {
    assert_eq!(hdr_luminance_codes(1000).max, 138);
}

#[test]
fn nits_clamp_floor_and_monotonic() {
    assert_eq!(hdr_luminance_codes(1).max, 1);
    assert_eq!(hdr_luminance_codes(40).max, 1);
    let mut last = 0u8;
    for nits in [51u32, 100, 200, 400, 800, 1000, 2000, 10_000] {
        let code = hdr_luminance_codes(nits).max;
        assert!(code >= last, "non-monotonic at {nits} nits");
        last = code;
    }
}

#[test]
fn hdr_edid_carries_requested_nits_code() {
    let m = hdr_mode();
    let name = utf16("Nits");
    let mut p = params(&m, &name);
    p.max_nits = 800;
    let e = generate(&p);
    let ext = &e.bytes[128..256];
    assert_eq!(ext[12], 128, "max luminance code for 800 nits");
    assert_eq!(ext[13], 86, "maxFALL code");
    assert_eq!(ext[14], 20, "min luminance code");
    assert_eq!(e.bytes[..128].iter().map(|&b| u32::from(b)).sum::<u32>() % 256, 0);
    assert_eq!(e.bytes[128..].iter().map(|&b| u32::from(b)).sum::<u32>() % 256, 0);
}

#[test]
fn both_blocks_checksum_and_link() {
    let m = mode(1920, 1080, 60_000);
    let n = utf16("Living Room");
    let e = generate(&params(&m, &n));
    assert_eq!(&e.bytes[0..8], &[0x00, 0xFF, 0xFF, 0xFF, 0xFF, 0xFF, 0xFF, 0x00]);
    let base: u32 = e.bytes[..128].iter().map(|&b| u32::from(b)).sum();
    let ext: u32 = e.bytes[128..].iter().map(|&b| u32::from(b)).sum();
    assert_eq!(base % 256, 0, "base block checksum");
    assert_eq!(ext % 256, 0, "extension checksum");
    assert_eq!(e.bytes[126], 1, "one extension declared");
    assert_eq!(e.bytes[128], 0x02, "CTA-861 tag");
}

#[test]
fn dtd_encodes_exact_1080p60_with_physical_size() {
    let m = mode(1920, 1080, 60_000);
    let n = utf16("X");
    let mut p = params(&m, &n);
    p.physical_width_mm = 700;
    p.physical_height_mm = 390;
    let e = generate(&p);
    assert_eq!(e.dtd, DtdTiming::Exact);
    let clock = u16::from_le_bytes([e.bytes[54], e.bytes[55]]);
    assert_eq!(clock, 14040);
    assert_eq!((e.bytes[21], e.bytes[22]), (70, 39));
    let dtd_w = u32::from(e.bytes[66]) | ((u32::from(e.bytes[68]) >> 4) << 8);
    let dtd_h = u32::from(e.bytes[67]) | ((u32::from(e.bytes[68]) & 0x0F) << 8);
    assert_eq!((dtd_w, dtd_h), (700, 390));
}

#[test]
fn defaults_apply_when_physical_size_zero() {
    let m = mode(1920, 1080, 60_000);
    let n = utf16("X");
    let e = generate(&params(&m, &n));
    assert_eq!((e.bytes[21], e.bytes[22]), (60, 34));
}

#[test]
fn hdr_extension_carries_metadata_and_colorimetry() {
    let m = hdr_mode();
    let n = utf16("X");
    let e = generate(&params(&m, &n));
    let ext = &e.bytes[128..];
    assert_eq!(ext[4], (7 << 5) | 3);
    assert_eq!(ext[5], 0x05);
    assert_eq!(ext[6], 0xC0, "BT.2020 RGB+YCC");
    assert_eq!(ext[8], (7 << 5) | 6);
    assert_eq!(ext[9], 0x06);
    assert_eq!(ext[10], 0x05, "SDR + PQ EOTFs");
    assert_eq!(ext[11], 0x01, "ST 2086 descriptor");
    assert_eq!(ext[12], 138);
    assert_eq!(ext[2], 15, "DTD offset after both blocks");
}

#[test]
fn sdr_extension_is_empty_but_valid() {
    let m = mode(1920, 1080, 60_000);
    let n = utf16("X");
    let e = generate(&params(&m, &n));
    assert_eq!(e.bytes[128 + 2], 4, "no data blocks");
    assert!(e.bytes[132..255].iter().all(|&b| b == 0));
}

#[test]
fn oversized_modes_get_stand_in_dtd() {
    let m = mode(7680, 4320, 60_000);
    let n = utf16("X");
    let e = generate(&params(&m, &n));
    assert_eq!(e.dtd, DtdTiming::StandIn(3840, 2160, 60_000));

    let m = mode(3840, 2160, 120_000);
    let e = generate(&params(&m, &n));
    assert_eq!(e.dtd, DtdTiming::StandIn(3840, 2160, 60_000));
}

#[test]
fn identity_fields_are_stamped() {
    let m = mode(1920, 1080, 60_000);
    let n = utf16("Steam Deck OLED extra");
    let mut p = params(&m, &n);
    p.serial = 0xBEEF;
    p.product_code = 0x4002;
    let e = generate(&p);
    assert_eq!(&e.bytes[10..12], &[0x02, 0x40], "product code LE");
    assert_eq!(&e.bytes[12..16], &0xBEEFu32.to_le_bytes());
    assert_eq!(e.bytes[75], 0xFC);
    assert_eq!(&e.bytes[77..90], b"Steam Deck OL");
    assert_eq!(e.bytes[93], 0xFF);
    assert_eq!(&e.bytes[95..107], b"LVGD0000BEEF");
}

#[test]
fn empty_name_gets_default_and_non_ascii_is_sanitized() {
    let m = mode(1920, 1080, 60_000);
    let e = generate(&params(&m, &[0u16]));
    assert_eq!(&e.bytes[77..88], b"Luminal VGD");

    let n = utf16("Téléviseur");
    let e = generate(&params(&m, &n));
    assert_eq!(&e.bytes[77..87], b"T?l?viseur");
}

#[test]
fn deep_color_changes_input_byte() {
    let n = utf16("X");
    let e = generate(&params(&hdr_mode(), &n));
    assert_eq!(e.bytes[20], 0xB5);
    let m12 =
        Mode::validate(1920, 1080, 60_000, 112, 1, caps::HDR10 | caps::HDR12_BIT).unwrap();
    let e = generate(&params(&m12, &n));
    assert_eq!(e.bytes[20], 0xC5);
}
