//! Per-monitor EDID: a 128-byte base block and a CTA-861 extension.
//!
//! Preferred timing, name, product code, serial and physical size match the
//! session. The extension carries what the base block cannot: HDR static metadata
//! and wide colorimetry. The EDID is identity and hint, never the authority on
//! modes: a mode beyond the limits of a detailed timing gets a stand-in there.
use vstd::prelude::*;

use crate::luminance::{hdr_luminance_codes, luminance_codes};
use crate::modes::Mode;
use crate::proto::wire::{lemma_u16_le_len, lemma_u32_le_len, put_bytes, put_u16, put_u32, u16_le, u32_le};
use crate::proto::BitDepth;

verus! {

pub const HBLANK: u32 = 160;

pub const VBLANK: u32 = 45;

/// Largest active size of a detailed timing.
pub const DTD_MAX_ACTIVE: u32 = 4095;

/// Largest pixel clock of a detailed timing, in units of 10 kHz.
pub const DTD_MAX_CLOCK_10KHZ: u64 = 65_535;

/// Below this rate a stand-in keeps the resolution no longer.
pub const MIN_STAND_IN_MILLIHZ: u32 = 23_000;

pub const DEFAULT_PHYSICAL_WIDTH_MM: u32 = 600;

pub const DEFAULT_PHYSICAL_HEIGHT_MM: u32 = 340;

/// Physical sizes saturate here.
pub const MAX_PHYSICAL_SIZE_MM: u32 = 2550;

/// Which timing the detailed timing descriptor describes.
#[derive(Clone, Copy, Debug, PartialEq, Eq, Structural)]
pub enum DtdTiming {
    /// The preferred mode.
    Exact,
    /// The preferred mode exceeds the limits; this one stands in (width, height,
    /// refresh in millihertz).
    StandIn(u32, u32, u32),
}

pub struct Edid {
    /// Base block and extension.
    pub bytes: [u8; 256],
    pub dtd: DtdTiming,
}

/// Everything that lands in the EDID.
pub struct EdidParams<'a> {
    /// Preferred mode.
    pub mode: &'a Mode,
    /// NUL-padded UTF-16 name.
    pub friendly_name: &'a [u16],
    pub serial: u32,
    pub product_code: u16,
    /// 0 takes the default.
    pub physical_width_mm: u32,
    pub physical_height_mm: u32,
    /// Peak luminance in nits; 0 takes the default. Ignored for SDR modes.
    pub max_nits: u32,
}

/// The parameters as plain values.
pub struct EdidModel {
    pub mode: Mode,
    pub friendly_name: Seq<u16>,
    pub serial: u32,
    pub product_code: u16,
    pub physical_width_mm: u32,
    pub physical_height_mm: u32,
    pub max_nits: u32,
}

impl<'a> View for EdidParams<'a> {
    type V = EdidModel;

    open spec fn view(&self) -> EdidModel {
        EdidModel {
            mode: *self.mode,
            friendly_name: self.friendly_name@,
            serial: self.serial,
            product_code: self.product_code,
            physical_width_mm: self.physical_width_mm,
            physical_height_mm: self.physical_height_mm,
            max_nits: self.max_nits,
        }
    }
}

/// Pixel clock in units of 10 kHz, rounded, with the blanking of all generated
/// timings.
pub open spec fn pixel_clock(width: int, height: int, refresh_millihz: int) -> int {
    ((width + HBLANK) * (height + VBLANK) * refresh_millihz + 5_000_000) / 10_000_000
}

/// The mode fits a detailed timing.
pub open spec fn fits_dtd(width: u32, height: u32, refresh_millihz: u32) -> bool {
    &&& width <= DTD_MAX_ACTIVE
    &&& height <= DTD_MAX_ACTIVE
    &&& pixel_clock(width as int, height as int, refresh_millihz as int) <= DTD_MAX_CLOCK_10KHZ
}

/// The first of `hz`, `hz / 2`, ... that fits at this resolution, as long as it is
/// not too slow; else 4K at 60 Hz.
pub open spec fn stand_in(width: u32, height: u32, hz: u32) -> DtdTiming
    decreases hz,
{
    if hz < MIN_STAND_IN_MILLIHZ || width > DTD_MAX_ACTIVE || height > DTD_MAX_ACTIVE {
        DtdTiming::StandIn(3840, 2160, 60_000)
    } else if fits_dtd(width, height, hz) {
        DtdTiming::StandIn(width, height, hz)
    } else {
        stand_in(width, height, hz / 2)
    }
}

/// The timing a mode gets.
pub open spec fn dtd_for(mode: Mode) -> DtdTiming {
    if fits_dtd(mode.width, mode.height, mode.refresh_millihz) {
        DtdTiming::Exact
    } else {
        stand_in(mode.width, mode.height, mode.refresh_millihz / 2)
    }
}

/// The 18 bytes of a detailed timing.
pub open spec fn dtd_bytes(width: u32, height: u32, refresh_millihz: u32, phys_w: u32, phys_h: u32) -> Seq<u8> {
    let clock = pixel_clock(width as int, height as int, refresh_millihz as int);
    seq![
        (clock % 256) as u8,
        (clock / 256) as u8,
        (width % 256) as u8,
        160,
        (width / 256 * 16) as u8,
        (height % 256) as u8,
        45,
        (height / 256 * 16) as u8,
        48,
        32,
        0x35,
        0,
        (phys_w % 256) as u8,
        (phys_h % 256) as u8,
        (phys_w / 256 * 16 + phys_h / 256) as u8,
        0,
        0,
        0x1E,
    ]
}

/// A requested physical size, with default and limit applied.
pub open spec fn physical_size(requested_mm: u32, default_mm: u32) -> u32 {
    let mm = if requested_mm == 0 {
        default_mm
    } else {
        requested_mm
    };
    if mm > MAX_PHYSICAL_SIZE_MM {
        MAX_PHYSICAL_SIZE_MM
    } else {
        mm
    }
}

/// Printable ASCII as it is, everything else as `?`.
pub open spec fn printable(unit: u16) -> u8 {
    if 0x20 <= unit <= 0x7E {
        unit as u8
    } else {
        0x3F
    }
}

pub open spec fn is_high_surrogate(unit: u16) -> bool {
    0xD800 <= unit <= 0xDBFF
}

pub open spec fn is_low_surrogate(unit: u16) -> bool {
    0xDC00 <= unit <= 0xDFFF
}

/// The characters of NUL-terminated UTF-16 text, one byte each. A surrogate pair is
/// one character.
pub open spec fn name_text(units: Seq<u16>) -> Seq<u8>
    decreases units.len(),
{
    if units.len() == 0 || units[0] == 0 {
        Seq::empty()
    } else if is_high_surrogate(units[0]) && units.len() > 1 && is_low_surrogate(units[1]) {
        seq![0x3F] + name_text(units.skip(2))
    } else {
        seq![printable(units[0])] + name_text(units.skip(1))
    }
}

/// The name that is used when the request leaves it empty: "Luminal VGD".
pub open spec fn default_name() -> Seq<u8> {
    seq![0x4C, 0x75, 0x6D, 0x69, 0x6E, 0x61, 0x6C, 0x20, 0x56, 0x47, 0x44]
}

/// The product name of a monitor.
pub open spec fn product_name(units: Seq<u16>) -> Seq<u8> {
    if name_text(units).len() == 0 {
        default_name()
    } else {
        name_text(units)
    }
}

/// `value` as `digits` uppercase hexadecimal digits, most significant first.
pub open spec fn upper_hex(value: nat, digits: nat) -> Seq<u8>
    decreases digits,
{
    if digits == 0 {
        Seq::empty()
    } else {
        let d = value % 16;
        upper_hex(value / 16, (digits - 1) as nat).push(
            if d < 10 {
                (48 + d) as u8
            } else {
                (55 + d) as u8
            },
        )
    }
}

/// The serial as text: "LVGD" and eight hexadecimal digits.
pub open spec fn serial_text(serial: u32) -> Seq<u8> {
    seq![0x4C, 0x56, 0x47, 0x44] + upper_hex(serial as nat, 8)
}

/// The 18 bytes of a text descriptor: up to 13 characters, a line feed if there is
/// room, blanks.
pub open spec fn text_descriptor(tag: u8, text: Seq<u8>) -> Seq<u8> {
    seq![0, 0, 0, tag, 0] + Seq::new(
        13,
        |i: int|
            if i < text.len() {
                text[i]
            } else if i == text.len() {
                0x0A
            } else {
                0x20
            },
    )
}

/// Video input definition: digital, by bit depth, DisplayPort.
pub open spec fn video_input(depth: BitDepth) -> u8 {
    match depth {
        BitDepth::Sdr8 => 0xA5,
        BitDepth::Sdr10 => 0xB5,
        BitDepth::Hdr10 => 0xB5,
        BitDepth::Hdr12 => 0xC5,
    }
}

/// The sum of some bytes.
pub open spec fn byte_sum(s: Seq<u8>) -> nat
    decreases s.len(),
{
    if s.len() == 0 {
        0
    } else {
        byte_sum(s.drop_last()) + s.last() as nat
    }
}

/// A block with the byte that makes its sum a multiple of 256.
pub open spec fn with_checksum(body: Seq<u8>) -> Seq<u8> {
    body.push(((256 - byte_sum(body) % 256) % 256) as u8)
}

pub open spec fn zeros(n: nat) -> Seq<u8> {
    Seq::new(n, |i: int| 0u8)
}

/// The detailed timing of a monitor.
pub open spec fn timing_bytes(p: EdidModel) -> Seq<u8> {
    let w = physical_size(p.physical_width_mm, DEFAULT_PHYSICAL_WIDTH_MM);
    let h = physical_size(p.physical_height_mm, DEFAULT_PHYSICAL_HEIGHT_MM);
    match dtd_for(p.mode) {
        DtdTiming::Exact => dtd_bytes(p.mode.width, p.mode.height, p.mode.refresh_millihz, w, h),
        DtdTiming::StandIn(dw, dh, hz) => dtd_bytes(dw, dh, hz, w, h),
    }
}

/// Header, manufacturer, identity and basic display parameters: bytes 0 to 53.
pub open spec fn base_head(p: EdidModel) -> Seq<u8> {
    let w = physical_size(p.physical_width_mm, DEFAULT_PHYSICAL_WIDTH_MM);
    let h = physical_size(p.physical_height_mm, DEFAULT_PHYSICAL_HEIGHT_MM);
    seq![0x00u8, 0xFF, 0xFF, 0xFF, 0xFF, 0xFF, 0xFF, 0x00, 0x38, 0x46] + u16_le(p.product_code)
        + u32_le(p.serial) + seq![
        0,
        36,
        1,
        4,
        video_input(p.mode.bit_depth),
        (w / 10) as u8,
        (h / 10) as u8,
        120,
        0x02,
        0xEE,
        0x91,
        0xA3,
        0x54,
        0x4C,
        0x99,
        0x26,
        0x0F,
        0x50,
        0x54,
    ] + zeros(3) + Seq::new(16, |i: int| 1u8)
}

/// An unused descriptor.
pub open spec fn dummy_descriptor() -> Seq<u8> {
    seq![0, 0, 0, 0x10] + zeros(14)
}

/// The base block without its checksum: bytes 0 to 126.
pub open spec fn base_body(p: EdidModel) -> Seq<u8> {
    base_head(p) + timing_bytes(p) + text_descriptor(0xFC, product_name(p.friendly_name))
        + text_descriptor(0xFF, serial_text(p.serial)) + dummy_descriptor() + seq![1]
}

/// The data blocks of the extension: colorimetry and HDR static metadata for an HDR
/// mode, none otherwise.
pub open spec fn data_blocks(p: EdidModel) -> Seq<u8> {
    if p.mode.hdr {
        let lum = luminance_codes(p.max_nits);
        seq![0xE3, 0x05, 0xC0, 0x00, 0xE6, 0x06, 0x05, 0x01, lum.max, lum.max_fall, lum.min]
    } else {
        Seq::empty()
    }
}

/// The extension without its checksum.
pub open spec fn extension_body(p: EdidModel) -> Seq<u8> {
    let blocks = data_blocks(p);
    seq![0x02, 0x03, (4 + blocks.len()) as u8, 0x00] + blocks + zeros((123 - blocks.len()) as nat)
}

/// The whole EDID.
pub open spec fn edid_bytes(p: EdidModel) -> Seq<u8> {
    with_checksum(base_body(p)) + with_checksum(extension_body(p))
}

fn clock_10khz(width: u32, height: u32, refresh_millihz: u32) -> (r: u64)
    requires
        width <= DTD_MAX_ACTIVE,
        height <= DTD_MAX_ACTIVE,
    ensures
        r == pixel_clock(width as int, height as int, refresh_millihz as int),
{
    let w: u64 = (width + HBLANK) as u64;
    let h: u64 = (height + VBLANK) as u64;
    assert(w * h <= 4255 * 4140) by (nonlinear_arith)
        requires
            w <= 4255,
            h <= 4140,
    ;
    let area: u64 = w * h;
    assert(area * refresh_millihz <= 4255 * 4140 * 0xFFFF_FFFF) by (nonlinear_arith)
        requires
            area <= 4255 * 4140,
            refresh_millihz <= 0xFFFF_FFFF,
    ;
    (area * refresh_millihz as u64 + 5_000_000) / 10_000_000
}

fn dtd_fits(width: u32, height: u32, refresh_millihz: u32) -> (r: bool)
    ensures
        r == fits_dtd(width, height, refresh_millihz),
{
    width <= DTD_MAX_ACTIVE && height <= DTD_MAX_ACTIVE && clock_10khz(width, height, refresh_millihz)
        <= DTD_MAX_CLOCK_10KHZ
}

fn choose_dtd(mode: &Mode) -> (r: DtdTiming)
    ensures
        r == dtd_for(*mode),
        r matches DtdTiming::StandIn(w, h, hz) ==> fits_dtd(w, h, hz),
        r is Exact ==> fits_dtd(mode.width, mode.height, mode.refresh_millihz),
{
    if dtd_fits(mode.width, mode.height, mode.refresh_millihz) {
        return DtdTiming::Exact;
    }
    let mut hz: u32 = mode.refresh_millihz / 2;
    while hz >= MIN_STAND_IN_MILLIHZ && mode.width <= DTD_MAX_ACTIVE && mode.height <= DTD_MAX_ACTIVE
        invariant
            dtd_for(*mode) == stand_in(mode.width, mode.height, hz),
        decreases hz,
    {
        if dtd_fits(mode.width, mode.height, hz) {
            return DtdTiming::StandIn(mode.width, mode.height, hz);
        }
        hz = hz / 2;
    }
    DtdTiming::StandIn(3840, 2160, 60_000)
}

fn write_dtd(out: &mut Vec<u8>, width: u32, height: u32, refresh_millihz: u32, phys_w: u32, phys_h: u32)
    requires
        fits_dtd(width, height, refresh_millihz),
        phys_w <= MAX_PHYSICAL_SIZE_MM,
        phys_h <= MAX_PHYSICAL_SIZE_MM,
    ensures
        final(out)@ == old(out)@ + dtd_bytes(width, height, refresh_millihz, phys_w, phys_h),
{
    let clock: u64 = clock_10khz(width, height, refresh_millihz);
    out.push((clock % 256) as u8);
    out.push((clock / 256) as u8);
    out.push((width % 256) as u8);
    out.push(160);
    out.push((width / 256 * 16) as u8);
    out.push((height % 256) as u8);
    out.push(45);
    out.push((height / 256 * 16) as u8);
    out.push(48);
    out.push(32);
    out.push(0x35);
    out.push(0);
    out.push((phys_w % 256) as u8);
    out.push((phys_h % 256) as u8);
    out.push((phys_w / 256 * 16 + phys_h / 256) as u8);
    out.push(0);
    out.push(0);
    out.push(0x1E);
    assert(out@ =~= old(out)@ + dtd_bytes(width, height, refresh_millihz, phys_w, phys_h));
}

/// Append a text descriptor.
fn write_text_descriptor(out: &mut Vec<u8>, tag: u8, text: &[u8])
    ensures
        final(out)@ == old(out)@ + text_descriptor(tag, text@),
{
    out.push(0);
    out.push(0);
    out.push(0);
    out.push(tag);
    out.push(0);
    let mut i: usize = 0;
    assert(out@ =~= old(out)@ + text_descriptor(tag, text@).take(5));
    while i < 13
        invariant
            i <= 13,
            out@ == old(out)@ + text_descriptor(tag, text@).take(5 + i),
        decreases 13 - i,
    {
        let b: u8 = if i < text.len() {
            text[i]
        } else if i == text.len() {
            0x0A
        } else {
            0x20
        };
        out.push(b);
        i += 1;
        assert(out@ =~= old(out)@ + text_descriptor(tag, text@).take(5 + i));
    }
    assert(text_descriptor(tag, text@).take(18) =~= text_descriptor(tag, text@));
}

/// The sanitized name, or the default one. Characters past the thirteenth are never
/// shown and may be left out.
fn name_bytes(units: &[u16]) -> (r: Vec<u8>)
    ensures
        r@.len() >= 13 || r@ == product_name(units@),
        r@.len() >= 13 ==> product_name(units@).len() >= 13 && r@.take(13) == product_name(
            units@,
        ).take(13),
{
    let mut out: Vec<u8> = Vec::new();
    let mut i: usize = 0;
    assert(units@.skip(0) =~= units@);
    assert(name_text(units@) =~= out@ + name_text(units@.skip(0)));
    while i < units.len() && units[i] != 0 && out.len() < 13
        invariant
            i <= units@.len(),
            out@.len() <= 13,
            name_text(units@) == out@ + name_text(units@.skip(i as int)),
        decreases units@.len() - i,
    {
        let ghost rest = units@.skip(i as int);
        let ghost was = out@;
        let unit: u16 = units[i];
        assert(rest[0] == unit);
        if unit >= 0xD800 && unit <= 0xDBFF && i + 1 < units.len() && units[i + 1] >= 0xDC00
            && units[i + 1] <= 0xDFFF {
            assert(rest[1] == units@[i + 1]);
            assert(rest.skip(2) =~= units@.skip(i + 2));
            out.push(0x3F);
            i += 2;
        } else {
            assert(rest.len() > 1 ==> rest[1] == units@[i + 1]);
            assert(rest.skip(1) =~= units@.skip(i + 1));
            let b: u8 = if unit >= 0x20 && unit <= 0x7E {
                unit as u8
            } else {
                0x3F
            };
            out.push(b);
            i += 1;
        }
        assert(was + name_text(rest) =~= out@ + name_text(units@.skip(i as int)));
    }
    let ghost tail = name_text(units@.skip(i as int));
    if out.len() >= 13 {
        assert(name_text(units@).take(13) =~= out@.take(13));
        return out;
    }
    proof {
        if i < units@.len() {
            assert(units@.skip(i as int)[0] == units@[i as int]);
        }
        assert(tail =~= Seq::<u8>::empty());
        assert(out@ + tail =~= out@);
    }
    if out.len() == 0 {
        let def: [u8; 11] = [0x4C, 0x75, 0x6D, 0x69, 0x6E, 0x61, 0x6C, 0x20, 0x56, 0x47, 0x44];
        put_bytes(&mut out, def.as_slice());
        assert(out@ =~= default_name());
    }
    out
}

fn put_upper_hex(out: &mut Vec<u8>, value: u32, digits: u32)
    ensures
        final(out)@ == old(out)@ + upper_hex(value as nat, digits as nat),
    decreases digits,
{
    if digits > 0 {
        put_upper_hex(out, value / 16, digits - 1);
        let d: u32 = value % 16;
        out.push(
            if d < 10 {
                48 + d as u8
            } else {
                55 + d as u8
            },
        );
    }
    assert(out@ =~= old(out)@ + upper_hex(value as nat, digits as nat));
}

fn put_zeros(out: &mut Vec<u8>, n: usize)
    ensures
        final(out)@ == old(out)@ + zeros(n as nat),
{
    let mut i: usize = 0;
    assert(out@ =~= old(out)@ + zeros(0));
    while i < n
        invariant
            i <= n,
            out@ == old(out)@ + zeros(i as nat),
        decreases n - i,
    {
        out.push(0);
        i += 1;
        assert(out@ =~= old(out)@ + zeros(i as nat));
    }
}

/// The byte that makes the sum of a block a multiple of 256.
fn checksum(body: &[u8]) -> (r: u8)
    ensures
        r == (256 - byte_sum(body@) % 256) % 256,
{
    let mut sum: u32 = 0;
    let mut i: usize = 0;
    assert(body@.take(0) =~= Seq::<u8>::empty());
    while i < body.len()
        invariant
            i <= body@.len(),
            sum < 256,
            sum == byte_sum(body@.take(i as int)) % 256,
        decreases body@.len() - i,
    {
        assert(body@.take(i + 1).drop_last() =~= body@.take(i as int));
        sum = (sum + body[i] as u32) % 256;
        i += 1;
    }
    assert(body@.take(i as int) =~= body@);
    ((256 - sum) % 256) as u8
}

fn clamp_size(requested_mm: u32, default_mm: u32) -> (r: u32)
    ensures
        r == physical_size(requested_mm, default_mm),
        r <= MAX_PHYSICAL_SIZE_MM,
{
    let mm: u32 = if requested_mm == 0 {
        default_mm
    } else {
        requested_mm
    };
    if mm > MAX_PHYSICAL_SIZE_MM {
        MAX_PHYSICAL_SIZE_MM
    } else {
        mm
    }
}

/// Append bytes 0 to 53 of the base block.
fn write_head(out: &mut Vec<u8>, p: &EdidParams, phys_w: u32, phys_h: u32)
    requires
        phys_w == physical_size(p.physical_width_mm, DEFAULT_PHYSICAL_WIDTH_MM),
        phys_h == physical_size(p.physical_height_mm, DEFAULT_PHYSICAL_HEIGHT_MM),
    ensures
        final(out)@ == old(out)@ + base_head(p@),
{
    let ghost start = out@;
    let head: [u8; 10] = [0x00, 0xFF, 0xFF, 0xFF, 0xFF, 0xFF, 0xFF, 0x00, 0x38, 0x46];
    put_bytes(out, head.as_slice());
    put_u16(out, p.product_code);
    put_u32(out, p.serial);
    let input: u8 = match p.mode.bit_depth {
        BitDepth::Sdr8 => 0xA5,
        BitDepth::Sdr10 | BitDepth::Hdr10 => 0xB5,
        BitDepth::Hdr12 => 0xC5,
    };
    let (cm_w, cm_h): (u8, u8) = ((phys_w / 10) as u8, (phys_h / 10) as u8);
    let basics: [u8; 19] = [
        0,
        36,
        1,
        4,
        input,
        cm_w,
        cm_h,
        120,
        0x02,
        0xEE,
        0x91,
        0xA3,
        0x54,
        0x4C,
        0x99,
        0x26,
        0x0F,
        0x50,
        0x54,
    ];
    put_bytes(out, basics.as_slice());
    put_zeros(out, 3);
    let unused: [u8; 16] = [1; 16];
    put_bytes(out, unused.as_slice());
    proof {
        broadcast use {lemma_u16_le_len, lemma_u32_le_len};

        assert(head@ =~= seq![0x00u8, 0xFF, 0xFF, 0xFF, 0xFF, 0xFF, 0xFF, 0x00, 0x38, 0x46]);
        assert(basics@ =~= seq![
            0,
            36,
            1,
            4,
            video_input(p.mode.bit_depth),
            (phys_w / 10) as u8,
            (phys_h / 10) as u8,
            120,
            0x02,
            0xEE,
            0x91,
            0xA3,
            0x54,
            0x4C,
            0x99,
            0x26,
            0x0F,
            0x50,
            0x54,
        ]);
        assert(unused@ =~= Seq::new(16, |i: int| 1u8));
        assert(out@ =~= start + base_head(p@));
    }
}

/// The base block with its checksum.
fn base_block(p: &EdidParams) -> (r: (Vec<u8>, DtdTiming))
    ensures
        r.0@ == with_checksum(base_body(p@)),
        r.0@.len() == 128,
        r.1 == dtd_for(*p.mode),
{
    let phys_w: u32 = clamp_size(p.physical_width_mm, DEFAULT_PHYSICAL_WIDTH_MM);
    let phys_h: u32 = clamp_size(p.physical_height_mm, DEFAULT_PHYSICAL_HEIGHT_MM);
    let mut out: Vec<u8> = Vec::new();
    write_head(&mut out, p, phys_w, phys_h);
    let dtd = choose_dtd(p.mode);
    let (dw, dh, dhz): (u32, u32, u32) = match dtd {
        DtdTiming::Exact => (p.mode.width, p.mode.height, p.mode.refresh_millihz),
        DtdTiming::StandIn(w, h, hz) => (w, h, hz),
    };
    write_dtd(&mut out, dw, dh, dhz, phys_w, phys_h);
    let name: Vec<u8> = name_bytes(p.friendly_name);
    write_text_descriptor(&mut out, 0xFC, name.as_slice());
    let mut serial: Vec<u8> = Vec::new();
    serial.push(0x4C);
    serial.push(0x56);
    serial.push(0x47);
    serial.push(0x44);
    put_upper_hex(&mut serial, p.serial, 8);
    write_text_descriptor(&mut out, 0xFF, serial.as_slice());
    out.push(0);
    out.push(0);
    out.push(0);
    out.push(0x10);
    put_zeros(&mut out, 14);
    out.push(1);
    proof {
        broadcast use {lemma_u16_le_len, lemma_u32_le_len};

        assert(serial@ =~= serial_text(p.serial));
        assert(text_descriptor(0xFC, name@) =~= text_descriptor(
            0xFC,
            product_name(p.friendly_name@),
        )) by {
            if name@.len() >= 13 {
                assert forall|i: int| 0 <= i < 13 implies name@[i] == product_name(p.friendly_name@)[i] by {
                    assert(name@.take(13)[i] == product_name(p.friendly_name@).take(13)[i]);
                }
            }
        }
        assert(out@ =~= base_body(p@));
        assert(out@.len() == 127);
    }
    let sum: u8 = checksum(out.as_slice());
    out.push(sum);
    (out, dtd)
}

/// The extension with its checksum.
fn extension_block(p: &EdidParams) -> (r: Vec<u8>)
    ensures
        r@ == with_checksum(extension_body(p@)),
        r@.len() == 128,
{
    let mut out: Vec<u8> = Vec::new();
    out.push(0x02);
    out.push(0x03);
    if p.mode.hdr {
        let lum = hdr_luminance_codes(p.max_nits);
        out.push(15);
        out.push(0x00);
        out.push(0xE3);
        out.push(0x05);
        out.push(0xC0);
        out.push(0x00);
        out.push(0xE6);
        out.push(0x06);
        out.push(0x05);
        out.push(0x01);
        out.push(lum.max);
        out.push(lum.max_fall);
        out.push(lum.min);
        put_zeros(&mut out, 112);
    } else {
        out.push(4);
        out.push(0x00);
        put_zeros(&mut out, 123);
    }
    assert(out@ =~= extension_body(p@));
    assert(out@.len() == 127);
    let sum: u8 = checksum(out.as_slice());
    out.push(sum);
    out
}

/// Generate the 256-byte EDID.
pub fn generate(p: &EdidParams) -> (r: Edid)
    ensures
        r.bytes@ == edid_bytes(p@),
        r.dtd == dtd_for(*p.mode),
{
    let (base, dtd) = base_block(p);
    let ext: Vec<u8> = extension_block(p);
    let mut bytes: [u8; 256] = [0; 256];
    let mut i: usize = 0;
    while i < 128
        invariant
            i <= 128,
            base@.len() == 128,
            ext@.len() == 128,
            forall|j: int| 0 <= j < i ==> #[trigger] bytes@[j] == base@[j],
            forall|j: int| 128 <= j < 128 + i ==> #[trigger] bytes@[j] == ext@[j - 128],
        decreases 128 - i,
    {
        bytes[i] = base[i];
        bytes[128 + i] = ext[i];
        i += 1;
    }
    assert(bytes@ =~= base@ + ext@);
    Edid { bytes, dtd }
}

proof fn lemma_lengths(p: EdidModel)
    ensures
        base_head(p).len() == 54,
        timing_bytes(p).len() == 18,
        base_body(p).len() == 127,
        extension_body(p).len() == 127,
        edid_bytes(p).len() == 256,
{
    broadcast use {lemma_u16_le_len, lemma_u32_le_len};

}

/// An EDID is two blocks of 128 bytes, and the sum of each is a multiple of 256.
pub proof fn law_blocks_sum_to_zero(p: EdidModel)
    ensures
        edid_bytes(p).len() == 256,
        byte_sum(edid_bytes(p).subrange(0, 128)) % 256 == 0,
        byte_sum(edid_bytes(p).subrange(128, 256)) % 256 == 0,
{
    lemma_lengths(p);
    let (a, b) = (base_body(p), extension_body(p));
    assert(edid_bytes(p).subrange(0, 128) =~= with_checksum(a));
    assert(edid_bytes(p).subrange(128, 256) =~= with_checksum(b));
    assert(with_checksum(a).drop_last() =~= a);
    assert(with_checksum(b).drop_last() =~= b);
}

/// The fixed header, the extension count and the extension tag are where a parser
/// looks for them.
pub proof fn law_blocks_link(p: EdidModel)
    ensures
        edid_bytes(p).subrange(0, 8) == seq![0x00u8, 0xFF, 0xFF, 0xFF, 0xFF, 0xFF, 0xFF, 0x00],
        edid_bytes(p)[126] == 1,
        edid_bytes(p)[128] == 0x02,
{
    broadcast use {lemma_u16_le_len, lemma_u32_le_len};

    lemma_lengths(p);
    assert(edid_bytes(p)[126] == base_body(p)[126]);
    assert(edid_bytes(p)[128] == extension_body(p)[0]);
    assert forall|i: int| 0 <= i < 8 implies edid_bytes(p)[i] == base_head(p)[i] by {
        assert(edid_bytes(p)[i] == base_body(p)[i]);
    }
    assert(edid_bytes(p).subrange(0, 8) =~= seq![
        0x00u8,
        0xFF,
        0xFF,
        0xFF,
        0xFF,
        0xFF,
        0xFF,
        0x00,
    ]);
}

/// Bytes 8 to 15 are the identity: the same for the same product code and serial,
/// different otherwise.
pub proof fn law_identity_octets(a: EdidModel, b: EdidModel)
    ensures
        edid_bytes(a).subrange(8, 16) == edid_bytes(b).subrange(8, 16) <==> a.product_code
            == b.product_code && a.serial == b.serial,
{
    lemma_identity_octets(a);
    lemma_identity_octets(b);
    if edid_bytes(a).subrange(8, 16) == edid_bytes(b).subrange(8, 16) {
        broadcast use {lemma_u16_le_len, lemma_u32_le_len};

        let m = seq![0x38u8, 0x46];
        crate::proto::wire::lemma_peel(
            m + u16_le(a.product_code),
            u32_le(a.serial),
            m + u16_le(b.product_code),
            u32_le(b.serial),
        );
        crate::proto::wire::lemma_peel(m, u16_le(a.product_code), m, u16_le(b.product_code));
        crate::proto::wire::lemma_u32_le_injective(a.serial, b.serial);
        crate::proto::wire::lemma_u16_le_injective(a.product_code, b.product_code);
    }
}

/// Where the identity stands.
pub proof fn lemma_identity_octets(p: EdidModel)
    ensures
        edid_bytes(p).subrange(8, 16) == seq![0x38u8, 0x46] + u16_le(p.product_code) + u32_le(p.serial),
{
    broadcast use {lemma_u16_le_len, lemma_u32_le_len};

    lemma_lengths(p);
    assert forall|i: int| 0 <= i < 54 implies edid_bytes(p)[i] == base_head(p)[i] by {
        assert(edid_bytes(p)[i] == base_body(p)[i]);
    }
    assert(edid_bytes(p).subrange(8, 16) =~= base_head(p).subrange(8, 16));
    assert(base_head(p).subrange(8, 16) =~= seq![0x38u8, 0x46] + u16_le(p.product_code) + u32_le(
        p.serial,
    ));
}

/// The detailed timing is always one a detailed timing can hold.
pub proof fn law_timing_fits(mode: Mode)
    ensures
        match dtd_for(mode) {
            DtdTiming::Exact => fits_dtd(mode.width, mode.height, mode.refresh_millihz),
            DtdTiming::StandIn(w, h, hz) => fits_dtd(w, h, hz),
        },
{
    lemma_stand_in_fits(mode.width, mode.height, mode.refresh_millihz / 2);
}

proof fn lemma_stand_in_fits(width: u32, height: u32, hz: u32)
    ensures
        stand_in(width, height, hz) matches DtdTiming::StandIn(w, h, r) && fits_dtd(w, h, r),
    decreases hz,
{
    if hz >= MIN_STAND_IN_MILLIHZ && width <= DTD_MAX_ACTIVE && height <= DTD_MAX_ACTIVE && !fits_dtd(
        width,
        height,
        hz,
    ) {
        lemma_stand_in_fits(width, height, hz / 2);
    }
}

proof fn lemma_parts(p: EdidModel)
    ensures
        edid_bytes(p).len() == 256,
        forall|i: int| 0 <= i < 54 ==> #[trigger] edid_bytes(p)[i] == base_head(p)[i],
        forall|i: int| 54 <= i < 72 ==> #[trigger] edid_bytes(p)[i] == timing_bytes(p)[i - 54],
        forall|i: int|
            72 <= i < 90 ==> #[trigger] edid_bytes(p)[i] == text_descriptor(
                0xFC,
                product_name(p.friendly_name),
            )[i - 72],
        forall|i: int|
            90 <= i < 108 ==> #[trigger] edid_bytes(p)[i] == text_descriptor(
                0xFF,
                serial_text(p.serial),
            )[i - 90],
        forall|i: int| 108 <= i < 126 ==> #[trigger] edid_bytes(p)[i] == dummy_descriptor()[i - 108],
        forall|i: int| 128 <= i < 255 ==> #[trigger] edid_bytes(p)[i] == extension_body(p)[i - 128],
{
    lemma_lengths(p);
    assert forall|i: int| 0 <= i < 127 implies #[trigger] edid_bytes(p)[i] == base_body(p)[i] by {}
    assert forall|i: int| 128 <= i < 255 implies #[trigger] edid_bytes(p)[i] == extension_body(
        p,
    )[i - 128] by {}
}

/// A mode keeps its own timing exactly when it is at most 4095 by 4095 and its clock
/// fits sixteen bits. Otherwise the rate is halved until the clock fits, as long as it
/// stays at 23 Hz or more; where that is of no help, 3840 by 2160 at 60 Hz stands in.
pub proof fn law_stand_in_halves_the_rate(mode: Mode)
    ensures
        ({
            let small = mode.width <= 4095 && mode.height <= 4095;
            let hz = mode.refresh_millihz;
            let half = (hz / 2) as u32;
            let whole_clock = ((mode.width + 160) * (mode.height + 45) * hz + 5_000_000) / 10_000_000;
            let half_clock = ((mode.width + 160) * (mode.height + 45) * half + 5_000_000)
                / 10_000_000;
            let exact = small && whole_clock <= 65_535;
            &&& dtd_for(mode) is Exact <==> exact
            &&& !small ==> dtd_for(mode) == DtdTiming::StandIn(3840, 2160, 60_000)
            &&& small && !exact && half < 23_000 ==> dtd_for(mode) == DtdTiming::StandIn(
                3840,
                2160,
                60_000,
            )
            &&& small && !exact && half >= 23_000 && half_clock <= 65_535 ==> dtd_for(mode)
                == DtdTiming::StandIn(mode.width, mode.height, half)
            &&& small && !exact && half >= 23_000 && half_clock > 65_535 ==> dtd_for(mode) == dtd_for(
                Mode { refresh_millihz: half, ..mode },
            )
        }),
{
    let half = (mode.refresh_millihz / 2) as u32;
    let slower = Mode { refresh_millihz: half, ..mode };
    lemma_stand_in_fits(mode.width, mode.height, half);
    if mode.width <= 4095 && mode.height <= 4095 && !fits_dtd(
        mode.width,
        mode.height,
        mode.refresh_millihz,
    ) {
        assert(dtd_for(mode) == stand_in(mode.width, mode.height, half));
        if half >= 23_000 && !fits_dtd(mode.width, mode.height, half) {
            assert(stand_in(mode.width, mode.height, half) == stand_in(mode.width, mode.height, half / 2));
            assert(dtd_for(slower) == stand_in(mode.width, mode.height, half / 2));
        }
    }
}

/// Bytes 54 to 71, read as a parser reads them, are the timing: the size, blanking and
/// sync of the mode or of its stand-in, the pixel clock of just this size and rate, and
/// the physical size.
pub proof fn law_timing_decodes(p: EdidModel)
    ensures
        ({
            let e = edid_bytes(p);
            let clock = e[54] + 256 * e[55];
            let width = e[56] + 256 * (e[58] / 16);
            let height = e[59] + 256 * (e[61] / 16);
            &&& match dtd_for(p.mode) {
                DtdTiming::Exact => {
                    &&& width == p.mode.width
                    &&& height == p.mode.height
                    &&& clock == ((p.mode.width + 160) * (p.mode.height + 45) * p.mode.refresh_millihz
                        + 5_000_000) / 10_000_000
                },
                DtdTiming::StandIn(w, h, hz) => {
                    &&& width == w
                    &&& height == h
                    &&& clock == ((w + 160) * (h + 45) * hz + 5_000_000) / 10_000_000
                },
            }
            &&& e[57] + 256 * (e[58] % 16) == 160
            &&& e[60] + 256 * (e[61] % 16) == 45
            &&& e[62] == 48
            &&& e[63] == 32
            &&& e[64] / 16 == 3
            &&& e[64] % 16 == 5
            &&& e[65] == 0
            &&& e[69] == 0
            &&& e[70] == 0
            &&& e[71] == 0x1E
        }),
{
    lemma_parts(p);
    law_timing_fits(p.mode);
    let e = edid_bytes(p);
    let t = timing_bytes(p);
    assert forall|i: int| 54 <= i < 72 implies e[i] == #[trigger] t[i - 54] by {
        assert(e[i] == timing_bytes(p)[i - 54]);
    }
    let (w, h, hz) = match dtd_for(p.mode) {
        DtdTiming::Exact => (p.mode.width, p.mode.height, p.mode.refresh_millihz),
        DtdTiming::StandIn(w, h, hz) => (w, h, hz),
    };
    assert(0 <= (w + 160) * (h + 45) * hz) by (nonlinear_arith)
        requires
            0 <= w,
            0 <= h,
            0 <= hz,
    ;
    assert(t[0] == e[54] && t[1] == e[55] && t[2] == e[56] && t[3] == e[57] && t[4] == e[58] && t[5]
        == e[59] && t[6] == e[60] && t[7] == e[61]);
    assert(t[8] == e[62] && t[9] == e[63] && t[10] == e[64] && t[11] == e[65] && t[15] == e[69]
        && t[16] == e[70] && t[17] == e[71]);
}

/// The physical size is told twice, in whole centimetres at bytes 21 and 22 and in
/// millimetres in the timing: what was asked for, up to 2550 mm, or 600 by 340 mm where
/// nothing was.
pub proof fn law_physical_size_decodes(p: EdidModel)
    ensures
        ({
            let e = edid_bytes(p);
            let w = e[66] + 256 * (e[68] / 16);
            let h = e[67] + 256 * (e[68] % 16);
            &&& w == (if p.physical_width_mm == 0 {
                600
            } else if p.physical_width_mm <= 2550 {
                p.physical_width_mm as int
            } else {
                2550
            })
            &&& h == (if p.physical_height_mm == 0 {
                340
            } else if p.physical_height_mm <= 2550 {
                p.physical_height_mm as int
            } else {
                2550
            })
            &&& e[21] == w / 10
            &&& e[22] == h / 10
        }),
{
    broadcast use {lemma_u16_le_len, lemma_u32_le_len};

    lemma_parts(p);
    let e = edid_bytes(p);
    let t = timing_bytes(p);
    assert(t[12] == e[66] && t[13] == e[67] && t[14] == e[68]);
}

/// The identity and the fixed part of the base block: manufacturer, product code and
/// serial in little-endian order, the version, and the bit depth of the digital input.
pub proof fn law_base_block_decodes(p: EdidModel)
    ensures
        ({
            let e = edid_bytes(p);
            &&& e[8] == 0x38 && e[9] == 0x46
            &&& e[10] + 0x100 * e[11] == p.product_code
            &&& e[12] + 0x100 * e[13] + 0x1_0000 * e[14] + 0x100_0000 * e[15] == p.serial
            &&& e[16] == 0 && e[17] == 36 && e[18] == 1 && e[19] == 4
            &&& e[20] / 128 == 1
            &&& e[20] % 16 == 5
            &&& 4 + 2 * ((e[20] / 16) % 8) == (match p.mode.bit_depth {
                BitDepth::Sdr8 => 8int,
                BitDepth::Sdr10 => 10,
                BitDepth::Hdr10 => 10,
                BitDepth::Hdr12 => 12,
            })
            &&& e[23] == 120 && e[24] == 0x02
            &&& e[25] == 0xEE && e[26] == 0x91 && e[27] == 0xA3 && e[28] == 0x54 && e[29] == 0x4C
            &&& e[30] == 0x99 && e[31] == 0x26 && e[32] == 0x0F && e[33] == 0x50 && e[34] == 0x54
            &&& forall|i: int| 35 <= i < 38 ==> #[trigger] e[i] == 0
            &&& forall|i: int| 38 <= i < 54 ==> #[trigger] e[i] == 1
            &&& e[111] == 0x10
            &&& forall|i: int| 108 <= i < 126 && i != 111 ==> #[trigger] e[i] == 0
            &&& e[126] == 1
        }),
{
    broadcast use {lemma_u16_le_len, lemma_u32_le_len};

    lemma_lengths(p);
    lemma_parts(p);
    let e = edid_bytes(p);
    let (code, serial) = (u16_le(p.product_code), u32_le(p.serial));
    crate::proto::wire::law_u16_reads_back(p.product_code);
    crate::proto::wire::law_u32_reads_back(p.serial);
    assert(e[10] == code[0] && e[11] == code[1]);
    assert(e[12] == serial[0] && e[13] == serial[1] && e[14] == serial[2] && e[15] == serial[3]);
    assert(e[126] == base_body(p)[126]);
}

/// The value of an uppercase hexadecimal digit.
pub open spec fn hex_value(digit: u8) -> int {
    if 0x30 <= digit <= 0x39 {
        digit - 0x30
    } else if 0x41 <= digit <= 0x46 {
        digit - 0x41 + 10
    } else {
        -1
    }
}

/// Eight hexadecimal digits starting at `at`, most significant first.
pub open spec fn hex_at(b: Seq<u8>, at: int) -> int {
    0x1000_0000 * hex_value(b[at]) + 0x100_0000 * hex_value(b[at + 1]) + 0x10_0000 * hex_value(
        b[at + 2],
    ) + 0x1_0000 * hex_value(b[at + 3]) + 0x1000 * hex_value(b[at + 4]) + 0x100 * hex_value(b[at + 5])
        + 0x10 * hex_value(b[at + 6]) + hex_value(b[at + 7])
}

/// The serial descriptor reads "LVGD" and then the serial in eight hexadecimal digits,
/// ended by a line feed.
pub proof fn law_serial_text_decodes(p: EdidModel)
    ensures
        ({
            let e = edid_bytes(p);
            &&& e[90] == 0 && e[91] == 0 && e[92] == 0 && e[93] == 0xFF && e[94] == 0
            &&& e[95] == 0x4C && e[96] == 0x56 && e[97] == 0x47 && e[98] == 0x44
            &&& forall|i: int| 99 <= i < 107 ==> 0 <= #[trigger] hex_value(e[i]) <= 15
            &&& hex_at(e, 99) == p.serial
            &&& e[107] == 0x0A
        }),
{
    lemma_parts(p);
    let e = edid_bytes(p);
    let hex = upper_hex(p.serial as nat, 8);
    let text = serial_text(p.serial);
    lemma_upper_hex(p.serial as nat);
    assert forall|i: int| 0 <= i < 8 implies e[99 + i] == #[trigger] hex[i] by {
        assert(text[4 + i] == hex[i]);
        assert(e[99 + i] == text_descriptor(0xFF, text)[9 + i]);
    }
    assert(hex_at(e, 99) == hex_at(hex, 0)) by {
        assert(e[99] == hex[0] && e[100] == hex[1] && e[101] == hex[2] && e[102] == hex[3] && e[103]
            == hex[4] && e[104] == hex[5] && e[105] == hex[6] && e[106] == hex[7]);
    }
    assert forall|i: int| 99 <= i < 107 implies 0 <= #[trigger] hex_value(e[i]) <= 15 by {
        assert(e[i] == hex[i - 99]);
    }
    assert(e[95] == text[0] && e[96] == text[1] && e[97] == text[2] && e[98] == text[3]);
}

proof fn lemma_upper_hex(value: nat)
    requires
        value < 0x1_0000_0000,
    ensures
        upper_hex(value, 8).len() == 8,
        hex_at(upper_hex(value, 8), 0) == value,
        forall|i: int| 0 <= i < 8 ==> 0 <= hex_value(#[trigger] upper_hex(value, 8)[i]) <= 15,
{
    let (a, b, c) = (value / 16, value / 16 / 16, value / 16 / 16 / 16);
    let (d, e) = (c / 16, c / 16 / 16);
    let (f, g) = (e / 16, e / 16 / 16);
    lemma_upper_hex_digit(value, 8);
    lemma_upper_hex_digit(a, 7);
    lemma_upper_hex_digit(b, 6);
    lemma_upper_hex_digit(c, 5);
    lemma_upper_hex_digit(d, 4);
    lemma_upper_hex_digit(e, 3);
    lemma_upper_hex_digit(f, 2);
    lemma_upper_hex_digit(g, 1);
    let h = upper_hex(value, 8);
    assert(h[6] == upper_hex(a, 7)[6]);
    assert(h[5] == upper_hex(b, 6)[5]);
    assert(h[4] == upper_hex(c, 5)[4]);
    assert(h[3] == upper_hex(d, 4)[3]);
    assert(h[2] == upper_hex(e, 3)[2]);
    assert(h[1] == upper_hex(f, 2)[1]);
    assert(h[0] == upper_hex(g, 1)[0]);
    assert(hex_value(h[7]) == value % 16 && hex_value(h[6]) == a % 16 && hex_value(h[5]) == b % 16
        && hex_value(h[4]) == c % 16);
    assert(hex_value(h[3]) == d % 16 && hex_value(h[2]) == e % 16 && hex_value(h[1]) == f % 16
        && hex_value(h[0]) == g % 16);
    assert(g < 16);
    assert forall|i: int| 0 <= i < 8 implies 0 <= hex_value(#[trigger] h[i]) <= 15 by {
        assert(i == 0 || i == 1 || i == 2 || i == 3 || i == 4 || i == 5 || i == 6 || i == 7);
    }
}

proof fn lemma_upper_hex_digit(value: nat, digits: nat)
    requires
        digits > 0,
    ensures
        upper_hex(value, digits).len() == digits,
        hex_value(upper_hex(value, digits)[digits - 1]) == value % 16,
        upper_hex(value, digits).drop_last() == upper_hex(value / 16, (digits - 1) as nat),
        forall|i: int|
            0 <= i < digits - 1 ==> #[trigger] upper_hex(value, digits)[i] == upper_hex(
                value / 16,
                (digits - 1) as nat,
            )[i],
    decreases digits,
{
    if digits > 1 {
        lemma_upper_hex_digit(value / 16, (digits - 1) as nat);
    }
    let rest = upper_hex(value / 16, (digits - 1) as nat);
    assert(rest.len() == digits - 1);
    assert(upper_hex(value, digits).drop_last() =~= rest);
}

/// The name descriptor, for a name of ordinary characters: each printable one stands as
/// it is, any other as a question mark; after the last comes a line feed and then
/// blanks, and what is beyond the thirteenth is left out. A name that is empty reads
/// "Luminal VGD".
pub proof fn law_name_descriptor_decodes(p: EdidModel, n: int)
    requires
        0 <= n <= p.friendly_name.len(),
        n < p.friendly_name.len() ==> p.friendly_name[n] == 0,
        forall|i: int|
            0 <= i < n ==> #[trigger] p.friendly_name[i] != 0 && !(0xD800 <= p.friendly_name[i]
                <= 0xDFFF),
    ensures
        ({
            let e = edid_bytes(p);
            let name = p.friendly_name;
            &&& e[72] == 0 && e[73] == 0 && e[74] == 0 && e[75] == 0xFC && e[76] == 0
            &&& n > 0 ==> {
                &&& forall|i: int|
                    0 <= i < n && i < 13 ==> e[77 + i] == (if 0x20 <= #[trigger] name[i] <= 0x7E {
                        name[i] as int
                    } else {
                        0x3F
                    })
                &&& n < 13 ==> e[77 + n] == 0x0A
                &&& forall|j: int| n < j - 77 && 77 <= j < 90 ==> #[trigger] e[j] == 0x20
            }
            &&& n == 0 ==> e.subrange(77, 90) == seq![
                0x4Cu8,
                0x75,
                0x6D,
                0x69,
                0x6E,
                0x61,
                0x6C,
                0x20,
                0x56,
                0x47,
                0x44,
                0x0A,
                0x20,
            ]
        }),
{
    lemma_parts(p);
    lemma_plain_name(p.friendly_name, n);
    let e = edid_bytes(p);
    let name = p.friendly_name;
    let text = product_name(name);
    let d = text_descriptor(0xFC, text);
    if n > 0 {
        assert forall|i: int| 0 <= i < n && i < 13 implies e[77 + i] == (if 0x20 <= #[trigger] name[i]
            <= 0x7E {
            name[i] as int
        } else {
            0x3F
        }) by {
            assert(e[77 + i] == d[5 + i]);
            assert(text[i] == printable(name[i]));
        }
        assert(n < 13 ==> e[77 + n] == d[5 + n]);
    } else {
        assert(e.subrange(77, 90) =~= d.subrange(5, 18));
        assert(d.subrange(5, 18) =~= seq![
            0x4Cu8,
            0x75,
            0x6D,
            0x69,
            0x6E,
            0x61,
            0x6C,
            0x20,
            0x56,
            0x47,
            0x44,
            0x0A,
            0x20,
        ]);
    }
}

proof fn lemma_plain_name(units: Seq<u16>, n: int)
    requires
        0 <= n <= units.len(),
        n < units.len() ==> units[n] == 0,
        forall|i: int|
            0 <= i < n ==> #[trigger] units[i] != 0 && !(0xD800 <= units[i] <= 0xDFFF),
    ensures
        name_text(units).len() == n,
        forall|i: int| 0 <= i < n ==> #[trigger] name_text(units)[i] == printable(units[i]),
    decreases n,
{
    if n > 0 {
        let rest = units.skip(1);
        assert forall|i: int| 0 <= i < n - 1 implies #[trigger] rest[i] != 0 && !(0xD800 <= rest[i]
            <= 0xDFFF) by {
            assert(rest[i] == units[i + 1]);
        }
        assert(n - 1 < rest.len() ==> rest[n - 1] == units[n]);
        lemma_plain_name(rest, n - 1);
        assert(units[0] != 0);
        assert forall|i: int| 0 <= i < n implies #[trigger] name_text(units)[i] == printable(units[i]) by {
            if i > 0 {
                assert(name_text(units)[i] == name_text(rest)[i - 1]);
                assert(rest[i - 1] == units[i]);
            }
        }
    }
}

/// A character outside the basic plane, which takes two units, is one question mark, as
/// is a unit that is half of such a pair on its own. Nothing after the first NUL counts.
pub proof fn law_name_one_mark_per_character(high: u16, low: u16, lone: u16, rest: Seq<u16>, same: Seq<u16>)
    requires
        0xD800 <= high <= 0xDBFF,
        0xDC00 <= low <= 0xDFFF,
        0xDC00 <= lone <= 0xDFFF || (0xD800 <= lone <= 0xDBFF && !(rest.len() > 0 && 0xDC00
            <= rest[0] <= 0xDFFF)),
    ensures
        name_text(seq![high, low] + rest) == name_text(seq![0x3Fu16] + rest),
        name_text(seq![lone] + rest) == name_text(seq![0x3Fu16] + rest),
        name_text(seq![0x3Fu16] + rest) == seq![0x3Fu8] + name_text(rest),
        name_text(seq![0u16] + rest) == name_text(seq![0u16] + same),
        name_text(seq![0u16] + rest).len() == 0,
{
    assert((seq![high, low] + rest).skip(2) =~= rest);
    assert((seq![lone] + rest).skip(1) =~= rest);
    assert((seq![0x3Fu16] + rest).skip(1) =~= rest);
    let l = seq![lone] + rest;
    assert(l.len() > 1 ==> l[1] == rest[0]);
}

/// The extension holds the colorimetry and luminance blocks exactly for a mode with
/// high dynamic range, says where they end, and is otherwise zero.
pub proof fn law_extension_decodes(p: EdidModel)
    ensures
        ({
            let e = edid_bytes(p);
            let codes = luminance_codes(p.max_nits);
            &&& e[128] == 2 && e[129] == 3 && e[131] == 0
            &&& p.mode.hdr ==> {
                &&& e[130] == 15
                &&& e[132] == 0xE3 && e[133] == 0x05 && e[134] == 0xC0 && e[135] == 0x00
                &&& e[136] == 0xE6 && e[137] == 0x06 && e[138] == 0x05 && e[139] == 0x01
                &&& e[140] == codes.max && e[141] == codes.max_fall && e[142] == codes.min
                &&& forall|i: int| 143 <= i < 255 ==> #[trigger] e[i] == 0
            }
            &&& !p.mode.hdr ==> {
                &&& e[130] == 4
                &&& forall|i: int| 132 <= i < 255 ==> #[trigger] e[i] == 0
            }
        }),
{
    lemma_parts(p);
}

/// Nothing but what it is made of shows in an EDID: the rate of a mode changes only
/// the timing, the luminance only an extension with high dynamic range.
pub proof fn law_edid_parts_are_independent(a: EdidModel, b: EdidModel)
    requires
        a.mode.bit_depth == b.mode.bit_depth,
        a.mode.hdr == b.mode.hdr,
        a.friendly_name == b.friendly_name,
        a.serial == b.serial,
        a.product_code == b.product_code,
        a.physical_width_mm == b.physical_width_mm,
        a.physical_height_mm == b.physical_height_mm,
    ensures
        forall|i: int|
            0 <= i < 127 && !(54 <= i < 72) ==> #[trigger] edid_bytes(a)[i] == edid_bytes(b)[i],
        !a.mode.hdr || a.max_nits == b.max_nits ==> edid_bytes(a).subrange(128, 256) == edid_bytes(
            b,
        ).subrange(128, 256),
        a.mode == b.mode ==> edid_bytes(a).subrange(0, 128) == edid_bytes(b).subrange(0, 128),
{
    lemma_lengths(a);
    lemma_lengths(b);
    lemma_parts(a);
    lemma_parts(b);
    assert(base_head(a) =~= base_head(b));
    assert forall|i: int| 0 <= i < 127 && !(54 <= i < 72) implies #[trigger] edid_bytes(a)[i]
        == edid_bytes(b)[i] by {
        if i == 126 {
            assert(edid_bytes(a)[i] == base_body(a)[i]);
            assert(edid_bytes(b)[i] == base_body(b)[i]);
        } else if i < 54 {
            assert(edid_bytes(a)[i] == base_head(a)[i]);
            assert(edid_bytes(b)[i] == base_head(b)[i]);
        }
    }
    assert(edid_bytes(a).subrange(128, 256) =~= with_checksum(extension_body(a)));
    assert(edid_bytes(b).subrange(128, 256) =~= with_checksum(extension_body(b)));
    assert(edid_bytes(a).subrange(0, 128) =~= with_checksum(base_body(a)));
    assert(edid_bytes(b).subrange(0, 128) =~= with_checksum(base_body(b)));
}

/// The sum over a block counts each of its bytes once.
pub proof fn law_byte_sum_step(s: Seq<u8>, b: u8)
    ensures
        byte_sum(Seq::empty()) == 0,
        byte_sum(s.push(b)) == byte_sum(s) + b,
{
    assert(s.push(b).drop_last() =~= s);
}

} // verus!
